use int8_gadget::backend::SystemRef;
use int8_gadget::cell::AllocationMode;
use int8_gadget::int8::{Int8, Int8Error};

#[test]
fn test_int8_from_bits_to_bits() {
    let cs = SystemRef::new_system();
    let byte_val = 0b01110001;
    let byte = Int8::new_witness(&cs, Some(byte_val)).unwrap();
    let bits = byte.to_bits_le().unwrap();

    for (i, bit) in bits.iter().enumerate() {
        assert_eq!(bit.value().unwrap(), (byte_val >> i) & 1 == 1)
    }
}

#[test]
fn test_positive() {
    let cs = SystemRef::new_system();
    let primitive_value = 1;
    let primitive_other_value = 1;
    let value_var = Int8::new_witness(&cs, Some(primitive_value)).unwrap();
    let other_value_var = Int8::new_witness(&cs, Some(primitive_other_value)).unwrap();

    assert!(value_var.enforce_equal(&other_value_var).is_ok());
    assert!(cs.is_satisfied().unwrap());
    assert_eq!(primitive_value, value_var.value().unwrap());
    assert_eq!(primitive_other_value, other_value_var.value().unwrap());
}

#[test]
fn test_negative() {
    let cs = SystemRef::new_system();
    let primitive_xxx = -1;
    let primitive_yyy = -1;
    let xxx = Int8::new_witness(&cs, Some(primitive_xxx)).unwrap();
    let yyy = Int8::new_witness(&cs, Some(primitive_yyy)).unwrap();

    assert!(xxx.enforce_equal(&yyy).is_ok());
    assert!(cs.is_satisfied().unwrap());
    assert_eq!(primitive_xxx, xxx.value().unwrap());
    assert_eq!(primitive_yyy, yyy.value().unwrap());
}

#[test]
fn test_addition_with_positive_operands() {
    let cs = SystemRef::new_system();
    let primitive_addend = 1;
    let primitive_augend = 1;
    let primitive_result = primitive_addend + primitive_augend;
    let addend_var = Int8::new_witness(&cs, Some(primitive_addend)).unwrap();
    let augend_var = Int8::new_witness(&cs, Some(primitive_augend)).unwrap();

    let result_from_primitive_var = Int8::new_witness(&cs, Some(primitive_result)).unwrap();
    let result = Int8::addmany(&[addend_var, augend_var]).unwrap();

    assert!(result_from_primitive_var.enforce_equal(&result).is_ok());
    assert!(cs.is_satisfied().unwrap());
    assert_eq!(primitive_result, result.value().unwrap());
}

#[test]
fn test_addition_with_negative_operands() {
    let cs = SystemRef::new_system();
    let primitive_addend = -1;
    let primitive_augend = -1;
    let primitive_result = primitive_addend + primitive_augend;
    let addend_var = Int8::new_witness(&cs, Some(primitive_addend)).unwrap();
    let augend_var = Int8::new_witness(&cs, Some(primitive_augend)).unwrap();

    let result_from_primitive_var = Int8::new_witness(&cs, Some(primitive_result)).unwrap();
    let result = Int8::addmany(&[addend_var, augend_var]).unwrap();

    assert!(result_from_primitive_var.enforce_equal(&result).is_ok());
    assert!(cs.is_satisfied().unwrap());
    assert_eq!(primitive_result, result.value().unwrap());
}

#[test]
fn test_addition_with_positive_addend_negative_augend_positive_result() {
    let cs = SystemRef::new_system();

    let primitive_addend = 2;
    let primitive_augend = -3;
    let primitive_result = primitive_addend + primitive_augend;

    let result_from_primitive_var = Int8::new_witness(&cs, Some(primitive_result)).unwrap();
    let addend_var = Int8::new_witness(&cs, Some(primitive_addend)).unwrap();
    let augend_var = Int8::new_witness(&cs, Some(primitive_augend)).unwrap();

    let result = Int8::addmany(&[addend_var, augend_var]).unwrap();

    assert!(result_from_primitive_var.enforce_equal(&result).is_ok());
    assert!(cs.is_satisfied().unwrap());
    assert_eq!(primitive_result, result.value().unwrap());
}

#[test]
fn test_addition_with_negative_addend_positive_augend_positive_result() {
    let cs = SystemRef::new_system();

    let primitive_addend = -1;
    let primitive_augend = 2;
    let primitive_result = primitive_addend + primitive_augend;

    let result_from_primitive_var = Int8::new_witness(&cs, Some(primitive_result)).unwrap();
    let addend_var = Int8::new_witness(&cs, Some(primitive_addend)).unwrap();
    let augend_var = Int8::new_witness(&cs, Some(primitive_augend)).unwrap();

    let result = Int8::addmany(&[addend_var, augend_var]).unwrap();

    assert!(result_from_primitive_var.enforce_equal(&result).is_ok());
    assert!(cs.is_satisfied().unwrap());
    assert_eq!(primitive_result, result.value().unwrap());
}

#[test]
fn test_addition_with_positive_addend_negative_augend_negative_result() {
    let cs = SystemRef::new_system();

    let primitive_addend = 1;
    let primitive_augend = -2;
    let primitive_result = primitive_addend + primitive_augend;

    let result_from_primitive_var = Int8::new_witness(&cs, Some(primitive_result)).unwrap();
    let addend_var = Int8::new_witness(&cs, Some(primitive_addend)).unwrap();
    let augend_var = Int8::new_witness(&cs, Some(primitive_augend)).unwrap();

    let result = Int8::addmany(&[addend_var, augend_var]).unwrap();

    assert!(result_from_primitive_var.enforce_equal(&result).is_ok());
    assert!(cs.is_satisfied().unwrap());
    assert_eq!(primitive_result, result.value().unwrap());
}

#[test]
fn test_addition_with_negative_addend_positive_augend_negative_result() {
    let cs = SystemRef::new_system();

    let primitive_addend = -2;
    let primitive_augend = 1;
    let primitive_result = primitive_addend + primitive_augend;

    let result_from_primitive_var = Int8::new_witness(&cs, Some(primitive_result)).unwrap();
    let addend_var = Int8::new_witness(&cs, Some(primitive_addend)).unwrap();
    let augend_var = Int8::new_witness(&cs, Some(primitive_augend)).unwrap();

    let result = Int8::addmany(&[addend_var, augend_var]).unwrap();

    assert!(result_from_primitive_var.enforce_equal(&result).is_ok());
    assert!(cs.is_satisfied().unwrap());
    assert_eq!(primitive_result, result.value().unwrap());
}

#[test]
fn test_addition_with_overflow() {
    let cs = SystemRef::new_system();

    let primitive_addend = i8::MAX;
    let primitive_augend = 1;

    let addend_var = Int8::new_witness(&cs, Some(primitive_addend)).unwrap();
    let augend_var = Int8::new_witness(&cs, Some(primitive_augend)).unwrap();

    let result = Int8::addmany(&[addend_var, augend_var]);

    assert!(result.is_err());
}

#[test]
fn test_addition_with_underflow() {
    let cs = SystemRef::new_system();

    let primitive_addend = -i8::MAX;
    let primitive_augend = -2;

    let addend_var = Int8::new_witness(&cs, Some(primitive_addend)).unwrap();
    let augend_var = Int8::new_witness(&cs, Some(primitive_augend)).unwrap();

    let result = Int8::addmany(&[addend_var, augend_var]);

    assert!(result.is_err());
}

#[test]
fn round_trip_every_value() {
    for v in i8::MIN..=i8::MAX {
        let byte = Int8::constant(v);
        assert_eq!(v, byte.value().unwrap());
        let bits = byte.to_bits_le().unwrap();
        assert_eq!(bits.len(), 8);
        let mut recombined: i16 = 0;
        for (i, bit) in bits.iter().enumerate() {
            if bit.value().unwrap() {
                recombined += 1 << i;
            }
        }
        if recombined >= 128 {
            recombined -= 256;
        }
        assert_eq!(v as i16, recombined);
    }
}

#[test]
fn overflow_errors_are_overflow() {
    let cs = SystemRef::new_system();
    let a = Int8::new_witness(&cs, Some(i8::MAX)).unwrap();
    let b = Int8::new_witness(&cs, Some(1)).unwrap();
    assert!(matches!(Int8::addmany(&[a, b]), Err(Int8Error::Overflow)));

    let c = Int8::new_witness(&cs, Some(-127)).unwrap();
    let d = Int8::new_witness(&cs, Some(-2)).unwrap();
    assert!(matches!(Int8::addmany(&[c, d]), Err(Int8Error::Overflow)));
}

#[test]
fn missing_assignment_is_synthesis_error() {
    let cs = SystemRef::new_system();
    let result = Int8::new_witness(&cs, None);
    assert!(matches!(result, Err(Int8Error::Synthesis(_))));
}

#[test]
fn constant_fast_path_allocates_nothing() {
    let cs = SystemRef::new_system();
    let before = cs.num_witness_variables();
    let a = Int8::constant(100);
    let b = Int8::constant(27);
    let result = Int8::addmany(&[a, b]).unwrap();
    assert_eq!(127, result.value().unwrap());
    assert_eq!(before, cs.num_witness_variables());
    // A constant result reads back without any constraint system at all.
    for bit in result.to_bits_le().unwrap() {
        bit.value().unwrap();
    }
}

#[test]
fn mode_independence_bits_and_counts() {
    let cs = SystemRef::new_system();
    assert_eq!(0, cs.num_witness_variables());
    let as_constant = Int8::new_variable(&cs, Some(2), AllocationMode::Constant).unwrap();
    assert_eq!(0, cs.num_witness_variables());
    let as_witness = Int8::new_variable(&cs, Some(2), AllocationMode::Witness).unwrap();
    assert_eq!(8, cs.num_witness_variables());

    let cbits = as_constant.to_bits_le().unwrap();
    let wbits = as_witness.to_bits_le().unwrap();
    for (c, w) in cbits.iter().zip(wbits.iter()) {
        assert_eq!(c.value().unwrap(), w.value().unwrap());
    }
}

#[test]
fn mixed_mode_addition() {
    let cs = SystemRef::new_system();
    let a = Int8::constant(2);
    let b = Int8::new_witness(&cs, Some(2)).unwrap();
    let expected = Int8::new_witness(&cs, Some(4)).unwrap();

    let result = Int8::addmany(&[a, b]).unwrap();

    assert_eq!(4, result.value().unwrap());
    assert!(expected.enforce_equal(&result).is_ok());
    assert!(cs.is_satisfied().unwrap());
}

#[test]
fn is_eq_on_witnessed_values() {
    let cs = SystemRef::new_system();
    let a = Int8::new_witness(&cs, Some(5)).unwrap();
    let b = Int8::new_witness(&cs, Some(5)).unwrap();
    let c = Int8::new_witness(&cs, Some(-5)).unwrap();

    assert!(a.is_eq(&b).unwrap().value().unwrap());
    assert!(!a.is_eq(&c).unwrap().value().unwrap());
    assert!(cs.is_satisfied().unwrap());
}

#[test]
fn is_eq_on_constants() {
    let a = Int8::constant(-17);
    let b = Int8::constant(-17);
    let c = Int8::constant(17);

    assert!(a.is_eq(&b).unwrap().value().unwrap());
    assert!(!a.is_eq(&c).unwrap().value().unwrap());
}

#[test]
fn enforce_equal_on_unequal_constants_fails() {
    let a = Int8::constant(3);
    let b = Int8::constant(4);
    assert!(a.enforce_equal(&b).is_err());
    assert!(a.enforce_equal(&Int8::constant(3)).is_ok());
}

#[test]
fn enforce_not_equal_on_witnesses() {
    let cs = SystemRef::new_system();
    let a = Int8::new_witness(&cs, Some(8)).unwrap();
    let b = Int8::new_witness(&cs, Some(9)).unwrap();
    let condition = int8_gadget::backend::CircuitBool::constant(true);

    assert!(a.conditional_enforce_not_equal(&b, &condition).is_ok());
    assert!(cs.is_satisfied().unwrap());
}

#[test]
fn addition_at_the_range_edges() {
    let cs = SystemRef::new_system();
    let min = Int8::new_witness(&cs, Some(i8::MIN)).unwrap();
    let zero = Int8::new_witness(&cs, Some(0)).unwrap();
    let result = Int8::addmany(&[min, zero]).unwrap();
    assert_eq!(i8::MIN, result.value().unwrap());
    assert!(cs.is_satisfied().unwrap());

    let max = Int8::new_witness(&cs, Some(i8::MAX)).unwrap();
    let min_again = Int8::new_witness(&cs, Some(i8::MIN)).unwrap();
    let result = Int8::addmany(&[max, min_again]).unwrap();
    assert_eq!(-1, result.value().unwrap());
    assert!(cs.is_satisfied().unwrap());
}

#[test]
fn false_guard_makes_equality_vacuous() {
    let cs = SystemRef::new_system();
    let guard = int8_gadget::backend::CircuitBool::constant(false);
    let a = Int8::constant(3);
    let b = Int8::constant(4);
    assert!(a.conditional_enforce_equal(&b, &guard).is_ok());

    let w1 = Int8::new_witness(&cs, Some(7)).unwrap();
    let w2 = Int8::new_witness(&cs, Some(-7)).unwrap();
    assert!(w1.conditional_enforce_equal(&w2, &guard).is_ok());
    assert!(cs.is_satisfied().unwrap());
}

#[test]
fn false_guard_makes_inequality_vacuous() {
    let cs = SystemRef::new_system();
    let guard = int8_gadget::backend::CircuitBool::constant(false);
    let a = Int8::constant(5);
    assert!(a.conditional_enforce_not_equal(&Int8::constant(5), &guard).is_ok());

    let w1 = Int8::new_witness(&cs, Some(9)).unwrap();
    let w2 = Int8::new_witness(&cs, Some(9)).unwrap();
    assert!(w1.conditional_enforce_not_equal(&w2, &guard).is_ok());
    assert!(cs.is_satisfied().unwrap());
}

#[test]
fn inequality_of_equal_constants_is_unsatisfiable() {
    let guard = int8_gadget::backend::CircuitBool::constant(true);
    let a = Int8::constant(-8);
    let b = Int8::constant(-8);
    assert!(matches!(
        a.conditional_enforce_not_equal(&b, &guard),
        Err(Int8Error::Unsatisfiable)
    ));
    assert!(a.conditional_enforce_not_equal(&Int8::constant(8), &guard).is_ok());
}

#[test]
fn inequality_of_equal_witnesses_is_unsatisfied() {
    let cs = SystemRef::new_system();
    let guard = int8_gadget::backend::CircuitBool::constant(true);
    let w1 = Int8::new_witness(&cs, Some(42)).unwrap();
    let w2 = Int8::new_witness(&cs, Some(42)).unwrap();
    assert!(w1.conditional_enforce_not_equal(&w2, &guard).is_ok());
    assert!(!cs.is_satisfied().unwrap());
}

#[test]
fn setup_pass_propagates_unknown_values() {
    let cs = SystemRef::new_setup_system();
    let a = Int8::new_witness(&cs, None).unwrap();
    let b = Int8::new_witness(&cs, None).unwrap();
    assert_eq!(16, cs.num_witness_variables());

    let sum = Int8::addmany(&[a, b]).unwrap();
    assert_eq!(25, cs.num_witness_variables());
    // The value is unknown: no bit carries an assignment to read back.
    assert!(sum.value().is_err());
}

#[test]
fn setup_pass_assigns_nothing() {
    let cs = SystemRef::new_setup_system();
    let byte = Int8::new_witness(&cs, Some(5)).unwrap();
    for bit in byte.to_bits_le().unwrap() {
        assert!(bit.value().is_err());
    }
}
