//! A signed byte inside an arithmetic constraint system: eight ordered
//! boolean circuit values, least significant first, with the cleartext
//! value when it is known.

use vstd::prelude::*;
use vstd::arithmetic::div_mod::lemma_div_is_ordered_by_denominator;
use crate::backend::{assigned_of, bools_cond_enforce_equal, bools_cond_enforce_not_equal,
    bools_is_eq, field_order, in_setup, is_assigned, is_empty_handle, is_setup, kind_of,
    lc_coeff, one_id, ref_id, CircuitBool, LinearExpr, SystemRef};
use vstd::arithmetic::div_mod::{lemma_breakdown, lemma_fundamental_div_mod,
    lemma_mod_multiples_vanish, lemma_small_mod};
use crate::cell::{AllocationMode, BitCell, CellKind};
use crate::encoding::{bit, lemma_halve, lemma_p2_mono, lemma_pat_bits_injective,
    lemma_bits_le_of_bits, lemma_bits_le_snoc, lemma_round_trip, p2, pat, pat_bits, pattern_of};
use ark_relations::r1cs::SynthesisError;

verus! {

/// Whether an integer fits a signed byte.
pub open spec fn in_i8_range(n: int) -> bool {
    -128 <= n <= 127
}

/// What one cell contributes, at weight `w`, to the coefficient of the
/// variable with id `vid` (`rid` is the id of the variable the cell refers
/// to): a constant bit adds its value times the weight to the constant
/// term, a variable cell adds the weight on its variable, and a negated
/// cell adds the weight to the constant term and subtracts it on its
/// variable.
pub closed spec fn cell_coeff(kind: CellKind, rid: int, w: int, vid: int) -> int {
    match kind {
        CellKind::Constant(b) => if b && vid == one_id() {
            w
        } else {
            0
        },
        CellKind::Var => if vid == rid {
            w
        } else {
            0
        },
        CellKind::NegVar => (if vid == one_id() {
            w
        } else {
            0
        }) - (if vid == rid {
            w
        } else {
            0
        }),
    }
}

/// The contributions of an operand's first `k` cells at doubling weights.
pub closed spec fn op_coeff_upto(op: Int8, vid: int, k: int) -> int
    decreases k,
{
    if k <= 0 {
        0
    } else {
        op_coeff_upto(op, vid, k - 1) + cell_coeff(
            op.cells()[k - 1],
            ref_id(op.bits@[k - 1]),
            p2(k - 1),
            vid,
        )
    }
}

/// The coefficient that folding one whole operand contributes to the
/// variable with id `vid`.
pub closed spec fn op_coeff(op: Int8, vid: int) -> int {
    op_coeff_upto(op, vid, 8)
}

/// The weight subtracted on the variable with id `vid` by the first `k`
/// allocated result bits.
pub closed spec fn sub_upto(bs: Seq<CircuitBool>, vid: int, k: int) -> int
    decreases k,
{
    if k <= 0 {
        0
    } else {
        sub_upto(bs, vid, k - 1) + if vid == ref_id(bs[k - 1]) {
            p2(k - 1)
        } else {
            0
        }
    }
}

/// Reducing the left addend first does not change a sum's residue.
proof fn lemma_mod_shift(a: int, d: int, m: int)
    requires
        m > 0,
    ensures
        ((a % m) + d) % m == (a + d) % m,
{
    let q = a / m;
    lemma_fundamental_div_mod(a, m);
    assert(m * (-q) + (a + d) == (a % m) + d) by (nonlinear_arith)
        requires
            a == m * q + (a % m),
    ;
    lemma_mod_multiples_vanish(-q, a + d, m);
}

/// Appending a result bit leaves the weights of the earlier ones alone.
proof fn lemma_sub_upto_push(bs: Seq<CircuitBool>, b: CircuitBool, vid: int, k: int)
    requires
        0 <= k <= bs.len(),
    ensures
        sub_upto(bs.push(b), vid, k) == sub_upto(bs, vid, k),
    decreases k,
{
    if k > 0 {
        lemma_sub_upto_push(bs, b, vid, k - 1);
        assert(bs.push(b)[k - 1] == bs[k - 1]);
    }
}

/// Why a gadget construction failed.
#[derive(Debug)]
pub enum Int8Error {
    /// The known operand values sum outside the signed byte range.
    Overflow,
    /// The demanded constraint can hold of no assignment: bitwise
    /// inequality of two identical constant bytes.
    Unsatisfiable,
    /// The truncated result did not hold exactly eight bits.
    WrongBitCount,
    /// The constraint-system engine failed.
    Synthesis(SynthesisError),
}

/// An interpretation of eight boolean circuit values as a signed byte.
pub struct Int8 {
    /// Little-endian: least significant bit first.
    bits: Vec<CircuitBool>,
    value: Option<i8>,
}

impl Int8 {
    /// The cells the circuit bits hold, in ascending significance.
    pub closed spec fn cells(self) -> Seq<CellKind> {
        self.bits@.map(|i: int, b: CircuitBool| kind_of(b))
    }

    /// The cleartext value, when it is known.
    pub closed spec fn spec_value(self) -> Option<i8> {
        self.value
    }

    /// Well-formed: exactly eight bits; whenever the cleartext value is
    /// present, every constant cell agrees with the corresponding bit of
    /// the value's two's-complement pattern, and under a full assignment
    /// the bits decode back to that value.
    pub closed spec fn wf(self) -> bool {
        &&& self.bits@.len() == 8
        &&& match self.value {
            Some(v) => (forall|i: int|
                0 <= i < 8 ==> ((#[trigger] self.cells()[i]) matches CellKind::Constant(b)
                    ==> b == bit(pat(v), i))) && (self.all_assigned()
                ==> crate::encoding::decode(self.assigned_bits()) == v),
            None => true,
        }
    }

    /// The bits' values under the system's assignment, in ascending
    /// significance.
    pub closed spec fn assigned_bits(self) -> Seq<bool> {
        self.bits@.map(|i: int, b: CircuitBool| assigned_of(b))
    }

    /// Whether each bit has a value under the system's assignment, in
    /// ascending significance.
    pub closed spec fn assigned_mask(self) -> Seq<bool> {
        self.bits@.map(|i: int, b: CircuitBool| is_assigned(b))
    }

    /// The ids of the variables the bits refer to, in ascending
    /// significance.
    pub closed spec fn cell_ids(self) -> Seq<int> {
        self.bits@.map(|i: int, b: CircuitBool| ref_id(b))
    }

    /// Every non-constant bit refers to a system in setup mode.
    pub closed spec fn in_setup_only(self) -> bool {
        forall|i: int|
            0 <= i < 8 ==> ((#[trigger] self.cells()[i]) is Constant || in_setup(self.bits@[i]))
    }

    /// Every bit has a value under the system's assignment.
    pub closed spec fn all_assigned(self) -> bool {
        forall|i: int| 0 <= i < 8 ==> is_assigned(#[trigger] self.bits@[i])
    }

    /// Every cell is a compile-time constant.
    pub closed spec fn all_constant(self) -> bool {
        forall|i: int| 0 <= i < 8 ==> self.cells()[i] is Constant
    }

    /// The cells are exactly the constant two's-complement pattern of `v`.
    pub closed spec fn is_constant_of(self, v: i8) -> bool {
        forall|i: int| 0 <= i < 8 ==> self.cells()[i] == CellKind::Constant(bit(pat(v), i))
    }

    /// Build the signed byte `value` out of constant cells alone. This
    /// touches no constraint system and allocates no variables.
    pub fn constant(value: i8) -> (r: Int8)
        ensures
            r.wf(),
            r.spec_value() == Some(value),
            r.is_constant_of(value),
            r.all_constant(),
            r.all_assigned(),
            r.assigned_bits() =~= pat_bits(value),
    {
        let mut bits: Vec<CircuitBool> = Vec::new();
        let mut tmp: u8 = pattern_of(value);
        let mut i: usize = 0;
        while i < 8
            invariant
                i <= 8,
                bits@.len() == i,
                tmp as int == pat(value) / p2(i as int),
                forall|j: int|
                    0 <= j < i ==> #[trigger] kind_of(bits@[j]) == CellKind::Constant(
                        bit(pat(value), j),
                    ),
                forall|j: int|
                    0 <= j < i ==> is_assigned(#[trigger] bits@[j]) && assigned_of(bits@[j])
                        == bit(pat(value), j),
            decreases 8 - i,
        {
            bits.push(CircuitBool::constant(tmp % 2 == 1));
            proof {
                lemma_halve(pat(value), i as int);
            }
            tmp = tmp / 2;
            i = i + 1;
        }
        let r = Int8 { bits, value: Some(value) };
        proof {
            assert forall|j: int| 0 <= j < 8 implies r.assigned_bits()[j] == pat_bits(value)[j] by {
                assert(r.assigned_bits()[j] == assigned_of(r.bits@[j]));
            }
            assert(r.assigned_bits() =~= pat_bits(value));
            lemma_round_trip(value);
        }
        r
    }

    /// Allocate a signed byte under the given mode: for each of the eight
    /// positions, the bit of the value's two's-complement pattern when the
    /// value is known, else an unknown bit. Under `Constant` mode this
    /// succeeds exactly when the value is known, builds the same cells as
    /// `constant`, and allocates nothing; under the other modes every cell
    /// refers to a freshly allocated variable.
    pub fn new_variable(cs: &SystemRef, value: Option<i8>, mode: AllocationMode) -> (r: Result<
        Int8,
        Int8Error,
    >)
        ensures
            r matches Ok(v8) ==> v8.wf() && v8.spec_value() == value,
            r matches Ok(v8) ==> (mode == AllocationMode::Constant ==> value is Some
                && v8.is_constant_of(value.unwrap())),
            r matches Ok(v8) ==> (mode != AllocationMode::Constant ==> forall|i: int|
                0 <= i < 8 ==> v8.cells()[i] is Var),
            r matches Ok(v8) ==> (value matches Some(v) ==> ((mode == AllocationMode::Constant
                || !is_setup(*cs)) ==> v8.all_assigned() && v8.assigned_bits() =~= pat_bits(v))),
            r matches Ok(v8) ==> (value matches Some(v) ==> (v8.all_assigned()
                ==> v8.assigned_bits() =~= pat_bits(v))),
            mode == AllocationMode::Constant ==> (r is Ok <==> value is Some),
            (mode != AllocationMode::Constant && !is_empty_handle(*cs) && (value is Some
                || is_setup(*cs))) ==> r is Ok,
    {
        let mut bits: Vec<CircuitBool> = Vec::new();
        let mut tmp: Option<u8> = match value {
            Some(v) => Some(pattern_of(v)),
            None => None,
        };
        let mut i: usize = 0;
        while i < 8
            invariant
                i <= 8,
                bits@.len() == i,
                value is Some <==> tmp is Some,
                value matches Some(v) ==> tmp.unwrap() as int == pat(v) / p2(i as int),
                i > 0 && mode == AllocationMode::Constant ==> value is Some,
                value matches Some(v) ==> forall|j: int|
                    0 <= j < i ==> ((#[trigger] kind_of(bits@[j])) matches CellKind::Constant(b)
                        ==> b == bit(pat(v), j)),
                mode == AllocationMode::Constant ==> (value matches Some(v) ==> forall|j: int|
                    0 <= j < i ==> #[trigger] kind_of(bits@[j]) == CellKind::Constant(
                        bit(pat(v), j),
                    )),
                mode != AllocationMode::Constant ==> forall|j: int|
                    0 <= j < i ==> (#[trigger] kind_of(bits@[j])) is Var,
                value matches Some(v) ==> ((mode == AllocationMode::Constant || !is_setup(*cs))
                    ==> forall|j: int|
                    0 <= j < i ==> is_assigned(#[trigger] bits@[j]) && assigned_of(bits@[j])
                        == bit(pat(v), j)),
                value matches Some(v) ==> forall|j: int|
                    0 <= j < i ==> (is_assigned(#[trigger] bits@[j]) ==> assigned_of(bits@[j])
                        == bit(pat(v), j)),
            decreases 8 - i,
        {
            let bv: Option<bool> = match tmp {
                Some(t) => Some(t % 2 == 1),
                None => None,
            };
            let b = match CircuitBool::allocate(cs, bv, mode) {
                Ok(b) => b,
                Err(e) => return Err(Int8Error::Synthesis(e)),
            };
            bits.push(b);
            proof {
                if value is Some {
                    lemma_halve(pat(value.unwrap()), i as int);
                }
            }
            tmp = match tmp {
                Some(t) => Some(t / 2),
                None => None,
            };
            i = i + 1;
        }
        let r8 = Int8 { bits, value };
        proof {
            if value is Some && r8.all_assigned() {
                let v = value.unwrap();
                assert forall|j: int| 0 <= j < 8 implies r8.assigned_bits()[j] == pat_bits(
                    v,
                )[j] by {
                    assert(is_assigned(r8.bits@[j]));
                    assert(r8.assigned_bits()[j] == assigned_of(r8.bits@[j]));
                }
                assert(r8.assigned_bits() =~= pat_bits(v));
                lemma_round_trip(v);
            }
        }
        Ok(r8)
    }

    /// Allocate a signed byte as a private witness.
    pub fn new_witness(cs: &SystemRef, value: Option<i8>) -> (r: Result<Int8, Int8Error>)
        ensures
            r matches Ok(v8) ==> v8.wf() && v8.spec_value() == value,
            r matches Ok(v8) ==> forall|i: int| 0 <= i < 8 ==> v8.cells()[i] is Var,
            r matches Ok(v8) ==> (value matches Some(v) ==> (!is_setup(*cs)
                ==> v8.all_assigned() && v8.assigned_bits() =~= pat_bits(v))),
            r matches Ok(v8) ==> (value matches Some(v) ==> (v8.all_assigned()
                ==> v8.assigned_bits() =~= pat_bits(v))),
            (!is_empty_handle(*cs) && (value is Some || is_setup(*cs))) ==> r is Ok,
    {
        Int8::new_variable(cs, value, AllocationMode::Witness)
    }

    /// Allocate a signed byte as a public input.
    pub fn new_input(cs: &SystemRef, value: Option<i8>) -> (r: Result<Int8, Int8Error>)
        ensures
            r matches Ok(v8) ==> v8.wf() && v8.spec_value() == value,
            r matches Ok(v8) ==> forall|i: int| 0 <= i < 8 ==> v8.cells()[i] is Var,
            r matches Ok(v8) ==> (value matches Some(v) ==> (!is_setup(*cs)
                ==> v8.all_assigned() && v8.assigned_bits() =~= pat_bits(v))),
            r matches Ok(v8) ==> (value matches Some(v) ==> (v8.all_assigned()
                ==> v8.assigned_bits() =~= pat_bits(v))),
            (!is_empty_handle(*cs) && (value is Some || is_setup(*cs))) ==> r is Ok,
    {
        Int8::new_variable(cs, value, AllocationMode::Input)
    }

    /// The constraint-system handle this byte's bits refer to: the first
    /// real system among them, or the empty handle when all are constants,
    /// since constants never touch a constraint system.
    pub fn cs(&self) -> (r: SystemRef)
        requires
            self.wf(),
        ensures
            self.all_constant() ==> is_empty_handle(r),
            !self.all_constant() ==> !is_empty_handle(r),
            self.in_setup_only() ==> is_empty_handle(r) || is_setup(r),
    {
        let mut acc = SystemRef::none();
        let mut i: usize = 0;
        while i < 8
            invariant
                self.wf(),
                i <= 8,
                is_empty_handle(acc) <==> (forall|j: int|
                    0 <= j < i ==> (#[trigger] self.cells()[j]) is Constant),
                self.in_setup_only() ==> (is_empty_handle(acc) || is_setup(acc)),
            decreases 8 - i,
        {
            proof {
                assert(self.cells()[i as int] == kind_of(self.bits@[i as int]));
            }
            acc = acc.or(self.bits[i].system());
            i = i + 1;
        }
        acc
    }

    /// The eight bits, least significant first, for composition by other
    /// gadgets.
    pub fn to_bits_le(&self) -> (r: Result<Vec<CircuitBool>, Int8Error>)
        requires
            self.wf(),
        ensures
            r matches Ok(bs) ==> bs@.len() == 8 && forall|i: int|
                0 <= i < 8 ==> kind_of(bs@[i]) == self.cells()[i] && ref_id(bs@[i])
                    == self.cell_ids()[i] && is_assigned(bs@[i]) == self.assigned_mask()[i]
                    && assigned_of(bs@[i]) == self.assigned_bits()[i],
            r is Ok,
    {
        let mut out: Vec<CircuitBool> = Vec::new();
        let mut i: usize = 0;
        while i < self.bits.len()
            invariant
                self.bits@.len() == 8,
                i <= 8,
                out@.len() == i,
                forall|j: int| 0 <= j < i ==> #[trigger] kind_of(out@[j]) == kind_of(self.bits@[j])
                    && ref_id(out@[j]) == ref_id(self.bits@[j]) && is_assigned(out@[j])
                    == is_assigned(self.bits@[j]) && assigned_of(out@[j]) == assigned_of(
                    self.bits@[j],
                ),
            decreases 8 - i,
        {
            out.push(self.bits[i].another());
            i = i + 1;
        }
        proof {
            assert forall|j: int| 0 <= j < 8 implies kind_of(out@[j]) == self.cells()[j]
                && ref_id(out@[j]) == self.cell_ids()[j] && is_assigned(out@[j])
                == self.assigned_mask()[j] && assigned_of(out@[j]) == self.assigned_bits()[j] by {
                assert(self.cells()[j] == kind_of(self.bits@[j]));
                assert(self.cell_ids()[j] == ref_id(self.bits@[j]));
                assert(self.assigned_mask()[j] == is_assigned(self.bits@[j]));
                assert(self.assigned_bits()[j] == assigned_of(self.bits@[j]));
            }
        }
        Ok(out)
    }

    /// Recompute the cleartext value from the bits' assignments, summing
    /// each bit at its positional weight under two's complement. On an
    /// all-constant byte this always succeeds and returns the stored value.
    pub fn value(&self) -> (r: Result<i8, Int8Error>)
        requires
            self.wf(),
        ensures
            r matches Ok(v) ==> v as int == crate::encoding::decode(self.assigned_bits()),
            r matches Err(e) ==> e is Synthesis,
            r is Ok <==> self.all_assigned(),
            self.all_constant() ==> r is Ok,
            self.all_constant() && self.spec_value() is Some ==> r == Ok::<i8, Int8Error>(
                self.spec_value().unwrap(),
            ),
    {
        let mut read: Vec<bool> = Vec::new();
        let mut i: usize = 0;
        while i < 8
            invariant
                self.wf(),
                i <= 8,
                read@.len() == i,
                forall|j: int| 0 <= j < i ==> #[trigger] read@[j] == assigned_of(self.bits@[j]),
                forall|j: int| 0 <= j < i ==> is_assigned(#[trigger] self.bits@[j]),
                forall|j: int|
                    0 <= j < i ==> ((#[trigger] self.cells()[j]) matches CellKind::Constant(c)
                        ==> read@[j] == c),
            decreases 8 - i,
        {
            let b = match self.bits[i].value() {
                Ok(b) => b,
                Err(e) => {
                    proof {
                        assert(self.cells()[i as int] == kind_of(self.bits@[i as int]));
                        if self.all_assigned() {
                            assert(is_assigned(self.bits@[i as int]));
                        }
                    }
                    return Err(Int8Error::Synthesis(e));
                },
            };
            proof {
                assert(self.cells()[i as int] == kind_of(self.bits@[i as int]));
            }
            read.push(b);
            i = i + 1;
        }
        let v = crate::encoding::decode_bits(&read);
        proof {
            assert forall|j: int| 0 <= j < 8 implies read@[j] == self.assigned_bits()[j] by {}
            assert(read@ =~= self.assigned_bits());
            if self.all_constant() && self.spec_value() is Some {
                let sv = self.spec_value().unwrap();
                assert forall|j: int| 0 <= j < 8 implies read@[j] == pat_bits(sv)[j] by {
                    assert(self.cells()[j] is Constant);
                }
                assert(read@ =~= pat_bits(sv));
                lemma_round_trip(sv);
            }
        }
        Ok(v)
    }


    /// A circuit bit saying whether the two bytes are equal: the
    /// conjunction of position-wise bit equality. On two all-constant
    /// bytes with known values it is the constant bit of their equality.
    pub fn is_eq(&self, other: &Int8) -> (r: Result<CircuitBool, Int8Error>)
        requires
            self.wf(),
            other.wf(),
        ensures
            r matches Ok(e) ==> ((self.all_constant() && other.all_constant()
                && self.spec_value() is Some && other.spec_value() is Some) ==> kind_of(e)
                == CellKind::Constant(self.spec_value() == other.spec_value())),
            r matches Ok(e) ==> ((self.all_assigned() && other.all_assigned()) ==> is_assigned(e)
                && (assigned_of(e) <==> self.assigned_bits() =~= other.assigned_bits())),
            self.all_constant() && other.all_constant() ==> r is Ok,
            self.all_assigned() && other.all_assigned() ==> r is Ok,
    {
        proof {
            if self.all_assigned() && other.all_assigned() {
                assert forall|i: int|
                    0 <= i < 8 implies is_assigned(#[trigger] self.bits@[i]) && is_assigned(
                    other.bits@[i],
                ) by {}
                assert forall|i: int|
                    0 <= i < 8 implies #[trigger] self.assigned_bits()[i] == assigned_of(
                    self.bits@[i],
                ) && other.assigned_bits()[i] == assigned_of(other.bits@[i]) by {}
                if (forall|i: int|
                    0 <= i < 8 ==> assigned_of(#[trigger] self.bits@[i]) == assigned_of(
                        other.bits@[i],
                    )) {
                    assert(self.assigned_bits() =~= other.assigned_bits());
                }
                if self.assigned_bits() =~= other.assigned_bits() {
                    assert forall|i: int|
                        0 <= i < 8 implies assigned_of(#[trigger] self.bits@[i]) == assigned_of(
                        other.bits@[i],
                    ) by {
                        assert(self.assigned_bits()[i] == other.assigned_bits()[i]);
                    }
                }
            }
            if self.all_constant() && other.all_constant() {
                lemma_all_constant_kinds(*self);
                lemma_all_constant_kinds(*other);
                if self.spec_value() is Some && other.spec_value() is Some {
                    lemma_const_kinds_eq(*self, *other);
                }
            }
        }
        match bools_is_eq(&self.bits, &other.bits) {
            Ok(e) => Ok(e),
            Err(e) => Err(Int8Error::Synthesis(e)),
        }
    }

    /// Enforce bitwise equality under a condition: when the condition bit
    /// is the constant false, nothing is enforced and the call succeeds
    /// whatever the operands hold. On two all-constant bytes with known
    /// values, under any other condition, it succeeds exactly when the
    /// values agree.
    pub fn conditional_enforce_equal(&self, other: &Int8, condition: &CircuitBool) -> (r: Result<
        (),
        Int8Error,
    >)
        requires
            self.wf(),
            other.wf(),
        ensures
            kind_of(*condition) == CellKind::Constant(false) ==> r is Ok,
            (self.all_constant() && other.all_constant() && self.spec_value() is Some
                && other.spec_value() is Some && kind_of(*condition) != CellKind::Constant(
                false,
            )) ==> (r is Ok <==> self.spec_value() == other.spec_value()),
            (forall|i: int|
                0 <= i < 8 ==> ((#[trigger] self.cells()[i]) is Constant && other.cells()[i]
                    is Constant ==> self.cells()[i] == other.cells()[i])) ==> r is Ok,
    {
        let ccell = condition.cell();
        if let BitCell::Constant(false) = ccell {
            return Ok(());
        }
        proof {
            assert forall|i: int| 0 <= i < 8 implies #[trigger] self.cells()[i] == kind_of(
                self.bits@[i],
            ) && other.cells()[i] == kind_of(other.bits@[i]) by {}
            if (forall|i: int|
                0 <= i < 8 ==> ((#[trigger] self.cells()[i]) is Constant && other.cells()[i]
                    is Constant ==> self.cells()[i] == other.cells()[i])) {
                assert forall|i: int|
                    0 <= i < 8 implies ((#[trigger] kind_of(self.bits@[i])) is Constant
                        && kind_of(other.bits@[i]) is Constant ==> kind_of(self.bits@[i])
                        == kind_of(other.bits@[i])) by {
                    assert(self.cells()[i] == kind_of(self.bits@[i]));
                    assert(other.cells()[i] == kind_of(other.bits@[i]));
                }
            }
            if self.all_constant() && other.all_constant() {
                lemma_all_constant_kinds(*self);
                lemma_all_constant_kinds(*other);
                if self.spec_value() is Some && other.spec_value() is Some {
                    lemma_const_kinds_eq(*self, *other);
                }
            }
        }
        match bools_cond_enforce_equal(&self.bits, &other.bits, condition) {
            Ok(()) => Ok(()),
            Err(e) => Err(Int8Error::Synthesis(e)),
        }
    }

    /// Enforce bitwise equality unconditionally.
    pub fn enforce_equal(&self, other: &Int8) -> (r: Result<(), Int8Error>)
        requires
            self.wf(),
            other.wf(),
        ensures
            (self.all_constant() && other.all_constant() && self.spec_value() is Some
                && other.spec_value() is Some) ==> (r is Ok <==> self.spec_value()
                == other.spec_value()),
            (forall|i: int|
                0 <= i < 8 ==> ((#[trigger] self.cells()[i]) is Constant && other.cells()[i]
                    is Constant ==> self.cells()[i] == other.cells()[i])) ==> r is Ok,
    {
        self.conditional_enforce_equal(other, &CircuitBool::constant(true))
    }

    /// Enforce bitwise inequality under a condition: when the condition
    /// bit is the constant false, nothing is enforced and the call
    /// succeeds whatever the operands hold. Demanding inequality of two
    /// all-constant bytes with equal patterns under the constant-true
    /// condition can hold of no assignment and fails with `Unsatisfiable`.
    pub fn conditional_enforce_not_equal(
        &self,
        other: &Int8,
        condition: &CircuitBool,
    ) -> (r: Result<(), Int8Error>)
        requires
            self.wf(),
            other.wf(),
        ensures
            kind_of(*condition) == CellKind::Constant(false) ==> r is Ok,
            (kind_of(*condition) == CellKind::Constant(true) && self.all_constant()
                && other.all_constant() && self.spec_value() is Some
                && other.spec_value() is Some) ==> (r is Ok <==> self.spec_value()
                != other.spec_value()),
            (self.all_assigned() && other.all_assigned() && !(self.all_constant()
                && other.all_constant())) ==> r is Ok,
    {
        let ccell = condition.cell();
        if let BitCell::Constant(false) = ccell {
            return Ok(());
        }

        // Decide whether both bytes are wholly constant with equal
        // patterns: the one demand no assignment can meet.
        let mut equal_constants = true;
        let mut i: usize = 0;
        while i < 8
            invariant
                self.wf(),
                other.wf(),
                i <= 8,
                equal_constants == (forall|j: int|
                    0 <= j < i ==> ((#[trigger] self.cells()[j]) is Constant
                        && other.cells()[j] is Constant && self.cells()[j] == other.cells()[j])),
            decreases 8 - i,
        {
            let a = self.bits[i].cell();
            let b = other.bits[i].cell();
            proof {
                assert(self.cells()[i as int] == kind_of(self.bits@[i as int]));
                assert(other.cells()[i as int] == kind_of(other.bits@[i as int]));
            }
            match (a, b) {
                (BitCell::Constant(x), BitCell::Constant(y)) => {
                    if x != y {
                        equal_constants = false;
                    }
                },
                _ => {
                    equal_constants = false;
                },
            }
            i = i + 1;
        }
        proof {
            if self.all_constant() && other.all_constant() {
                lemma_all_constant_kinds(*self);
                lemma_all_constant_kinds(*other);
                if self.spec_value() is Some && other.spec_value() is Some {
                    lemma_const_kinds_eq(*self, *other);
                }
            }
            assert forall|i: int| 0 <= i < 8 implies #[trigger] self.cells()[i] == kind_of(
                self.bits@[i],
            ) && other.cells()[i] == kind_of(other.bits@[i]) by {}
            if equal_constants {
                assert forall|j: int| 0 <= j < 8 implies #[trigger] kind_of(self.bits@[j])
                    == kind_of(other.bits@[j]) by {
                    assert(self.cells()[j] == other.cells()[j]);
                }
            }
            if self.all_assigned() && other.all_assigned() {
                assert forall|i: int|
                    0 <= i < 8 implies is_assigned(#[trigger] self.bits@[i]) && is_assigned(
                    other.bits@[i],
                ) by {}
            }
        }
        if let BitCell::Constant(true) = ccell {
            if equal_constants {
                proof {
                    assert forall|j: int| 0 <= j < 8 implies (#[trigger] self.cells()[j])
                        is Constant by {}
                    assert forall|j: int| 0 <= j < 8 implies (#[trigger] other.cells()[j])
                        is Constant by {
                        assert(self.cells()[j] is Constant);
                    }
                }
                return Err(Int8Error::Unsatisfiable);
            }
        }
        match bools_cond_enforce_not_equal(&self.bits, &other.bits, condition) {
            Ok(()) => Ok(()),
            Err(e) => Err(Int8Error::Synthesis(e)),
        }
    }

    /// Fold one operand's bits into the running linear expression, with a
    /// coefficient that doubles every position: a constant cell adds its
    /// bit times the weight to the constant term, a variable cell adds
    /// weight times the variable, and a negated cell adds the weight and
    /// subtracts weight times the variable. Says whether every cell was a
    /// compile-time constant.
    /// Enforce, with a single rank-1 constraint, that the combined
    /// expression equals zero. The precondition pins what is handed to the
    /// engine: on every variable, the expression carries exactly the two
    /// operands' folded contributions less the weighted allocated result
    /// bits.
    fn enforce_addition(
        cs: &SystemRef,
        lc: LinearExpr,
        a: &Int8,
        b: &Int8,
        result_bits: &Vec<CircuitBool>,
    ) -> (r: Result<(), SynthesisError>)
        requires
            forall|vid: int| #[trigger] lc_coeff(lc, vid) == (op_coeff(*a, vid) + op_coeff(
                *b,
                vid,
            ) - sub_upto(result_bits@, vid, result_bits@.len() as int)) % field_order(),
        ensures
            r is Err ==> is_empty_handle(*cs),
    {
        cs.enforce_zero(lc)
    }

    fn fold_operand(lc: &mut LinearExpr, op: &Int8) -> (r: bool)
        requires
            op.wf(),
            forall|vid: int| 0 <= #[trigger] lc_coeff(*old(lc), vid) < field_order(),
        ensures
            r == op.all_constant(),
            forall|vid: int| #[trigger] lc_coeff(*final(lc), vid) == (lc_coeff(*old(lc), vid)
                + op_coeff(*op, vid)) % field_order(),
    {
        let ghost lc0 = *lc;
        proof {
            assert forall|vid: int| #[trigger] lc_coeff(*lc, vid) == (lc_coeff(lc0, vid)
                + op_coeff_upto(*op, vid, 0)) % field_order() by {
                vstd::arithmetic::div_mod::lemma_small_mod(
                    lc_coeff(lc0, vid) as nat,
                    field_order() as nat,
                );
            }
        }
        let mut all = true;
        let mut coeff: u64 = 1;
        let mut i: usize = 0;
        while i < 8
            invariant
                op.wf(),
                i <= 8,
                coeff as int == p2(i as int),
                coeff <= 256,
                all == (forall|j: int| 0 <= j < i ==> (#[trigger] op.cells()[j]) is Constant),
                forall|vid: int| #[trigger] lc_coeff(*lc, vid) == (lc_coeff(lc0, vid)
                    + op_coeff_upto(*op, vid, i as int)) % field_order(),
            decreases 8 - i,
        {
            let ghost w = p2(i as int);
            let cell = op.bits[i].cell();
            proof {
                assert(op.cells()[i as int] == kind_of(op.bits@[i as int]));
            }
            match cell {
                BitCell::Constant(b) => {
                    if b {
                        lc.add_one(coeff);
                    }
                },
                BitCell::Var(v) => {
                    all = false;
                    lc.add_var(coeff, &v);
                },
                BitCell::NegVar(v) => {
                    all = false;
                    lc.add_one(coeff);
                    lc.sub_var(coeff, &v);
                },
            }
            proof {
                assert forall|vid: int| #[trigger] lc_coeff(*lc, vid) == (lc_coeff(lc0, vid)
                    + op_coeff_upto(*op, vid, i as int + 1)) % field_order() by {
                    let base = lc_coeff(lc0, vid) + op_coeff_upto(*op, vid, i as int);
                    lemma_mod_shift(base, w, field_order());
                    lemma_mod_shift(base, -w, field_order());
                    lemma_mod_shift(base + w, -w, field_order());
                }
                lemma_p2_mono(i as int + 1, 8);
                reveal_with_fuel(p2, 9);
            }
            coeff = coeff * 2;
            i = i + 1;
        }
        all
    }

    /// Perform modular addition of the two operands.
    ///
    /// When both cleartext values are known, the addition fails with
    /// `Overflow` exactly when their sum leaves the signed byte range, and
    /// a successful result carries that sum; when either value is unknown
    /// the result's value is unknown. When every contributing bit is a
    /// compile-time constant and the sum is known and in range, the result
    /// is the constant byte of the sum, with no new allocations; otherwise
    /// the result's bits are freshly allocated, the operands' bits are
    /// folded into one linear expression against the allocated bits, and a
    /// single rank-1 constraint enforces that the expression is zero.
    pub fn addmany(operands: &[Int8; 2]) -> (r: Result<Int8, Int8Error>)
        requires
            operands[0].wf(),
            operands[1].wf(),
        ensures
            r matches Ok(s) ==> s.wf(),
            (r matches Err(e) && e is Overflow) <==> (operands[0].spec_value() is Some
                && operands[1].spec_value() is Some && !in_i8_range(
                operands[0].spec_value().unwrap() + operands[1].spec_value().unwrap(),
            )),
            r matches Ok(s) ==> (operands[0].spec_value() is Some
                && operands[1].spec_value() is Some ==> (s.spec_value() matches Some(v) && v
                == operands[0].spec_value().unwrap() + operands[1].spec_value().unwrap())),
            r matches Ok(s) ==> (!(operands[0].spec_value() is Some
                && operands[1].spec_value() is Some) ==> s.spec_value() is None),
            (operands[0].all_constant() && operands[1].all_constant()
                && operands[0].spec_value() is Some && operands[1].spec_value() is Some
                && in_i8_range(
                operands[0].spec_value().unwrap() + operands[1].spec_value().unwrap(),
            )) ==> (r matches Ok(s) && s.all_constant()),
            r matches Ok(s) ==> (!(operands[0].all_constant() && operands[1].all_constant())
                ==> forall|i: int| 0 <= i < 8 ==> s.cells()[i] is Var),
            r matches Ok(s) ==> ((operands[0].spec_value() is Some
                && operands[1].spec_value() is Some && s.all_assigned())
                ==> crate::encoding::decode(s.assigned_bits())
                == operands[0].spec_value().unwrap() + operands[1].spec_value().unwrap()),
            (operands[0].spec_value() is Some && operands[1].spec_value() is Some && in_i8_range(
                operands[0].spec_value().unwrap() + operands[1].spec_value().unwrap(),
            )) ==> r is Ok,
            (operands[0].in_setup_only() && operands[1].in_setup_only()
                && !(operands[0].all_constant() && operands[1].all_constant())
                && !(operands[0].spec_value() is Some && operands[1].spec_value() is Some
                && !in_i8_range(
                operands[0].spec_value().unwrap() + operands[1].spec_value().unwrap(),
            ))) ==> r is Ok,
            !(r matches Err(e) && e is WrongBitCount),
    {
        let v0 = operands[0].value;
        let v1 = operands[1].value;

        // The cleartext sum, tracked while every operand value is known.
        let sum16: Option<i16> = match (v0, v1) {
            (Some(a), Some(b)) => Some(a as i16 + b as i16),
            _ => None,
        };
        if let Some(s) = sum16 {
            if s > 127 || s < -128 {
                return Err(Int8Error::Overflow);
            }
        }

        // Fold every bit of every operand into one linear expression.
        let mut lc = LinearExpr::zero();
        let c0 = Self::fold_operand(&mut lc, &operands[0]);
        let c1 = Self::fold_operand(&mut lc, &operands[1]);
        proof {
            assert forall|vid: int| #[trigger] lc_coeff(lc, vid) == (op_coeff(operands[0], vid)
                + op_coeff(operands[1], vid)) % field_order() by {
                lemma_mod_shift(op_coeff(operands[0], vid), op_coeff(operands[1], vid),
                    field_order());
            }
        }

        // When every contributing bit is a constant and the sum is known,
        // short-circuit to a constant result with zero new allocations.
        if c0 && c1 {
            if let Some(s) = sum16 {
                let res = Int8::constant(s as i8);
                proof {
                    lemma_round_trip(s as i8);
                    assert(res.assigned_bits() == pat_bits(s as i8));
                }
                return Ok(res);
            }
        }

        let cs = operands[0].cs().or(operands[1].cs());

        // The unsigned bit patterns summed: what the allocated result bits
        // must recombine to, carry included.
        let pattern_sum: Option<u16> = match (v0, v1) {
            (Some(a), Some(b)) => Some(pattern_of(a) as u16 + pattern_of(b) as u16),
            _ => None,
        };

        // Allocate one witnessed result bit per power of two up to the
        // magnitude bound of the sum of two bytes' patterns, subtracting
        // each from the expression.
        let mut result_bits: Vec<CircuitBool> = Vec::new();
        let mut cur: Option<u16> = pattern_sum;
        let mut coeff: u64 = 1;
        let mut max_value: u16 = 255 * 2;
        let mut i: usize = 0;
        while max_value != 0
            invariant
                result_bits@.len() == i,
                i <= 9,
                coeff as int == p2(i as int),
                max_value as int == 510int / p2(i as int),
                forall|j: int| 0 <= j < i ==> (#[trigger] kind_of(result_bits@[j])) is Var,
                sum16 is Some <==> cur is Some,
                sum16 is Some ==> pattern_sum is Some && pattern_sum.unwrap() as int == pat(
                    operands[0].spec_value().unwrap(),
                ) + pat(operands[1].spec_value().unwrap()),
                sum16 is Some ==> cur.unwrap() as int == pattern_sum.unwrap() as int / p2(
                    i as int,
                ),
                sum16 is Some ==> forall|j: int|
                    0 <= j < i ==> (is_assigned(#[trigger] result_bits@[j]) ==> assigned_of(
                        result_bits@[j],
                    ) == bit(pattern_sum.unwrap() as int, j)),
                sum16 matches Some(s) ==> operands[0].spec_value() is Some
                    && operands[1].spec_value() is Some && s == operands[0].spec_value().unwrap()
                    + operands[1].spec_value().unwrap() && in_i8_range(s as int),
                sum16 is None ==> !(operands[0].spec_value() is Some
                    && operands[1].spec_value() is Some),
                !(operands[0].all_constant() && operands[1].all_constant() && sum16 is Some),
                sum16 is Some ==> !is_empty_handle(cs),
                !(operands[0].all_constant() && operands[1].all_constant()) ==> !is_empty_handle(
                    cs,
                ),
                (operands[0].in_setup_only() && operands[1].in_setup_only()) ==> (is_empty_handle(
                    cs,
                ) || is_setup(cs)),
                forall|vid: int| #[trigger] lc_coeff(lc, vid) == (op_coeff(operands[0], vid)
                    + op_coeff(operands[1], vid) - sub_upto(result_bits@, vid, i as int))
                    % field_order(),
            decreases max_value,
        {
            proof {
                reveal_with_fuel(p2, 11);
                assert(p2(9) == 512);
                if i >= 9 {
                    lemma_p2_mono(9, i as int);
                    lemma_div_is_ordered_by_denominator(510int, 512int, p2(i as int));
                    assert(510int / 512int == 0);
                    assert(max_value as int <= 0);
                    assert(false);
                }
            }
            let bv: Option<bool> = match cur {
                Some(c) => Some(c % 2 == 1),
                None => None,
            };
            let b = match CircuitBool::allocate(&cs, bv, AllocationMode::Witness) {
                Ok(b) => b,
                Err(e) => return Err(Int8Error::Synthesis(e)),
            };
            let cell = b.cell();
            match cell {
                BitCell::Var(v) => lc.sub_var(coeff, &v),
                _ => {
                    proof {
                        assert(false);
                    }
                },
            }
            let ghost rb0 = result_bits@;
            result_bits.push(b);
            proof {
                lemma_halve(510int, i as int);
                if sum16 is Some {
                    lemma_halve(pattern_sum.unwrap() as int, i as int);
                }
                assert forall|vid: int| #[trigger] lc_coeff(lc, vid) == (op_coeff(
                    operands[0],
                    vid,
                ) + op_coeff(operands[1], vid) - sub_upto(result_bits@, vid, i as int + 1))
                    % field_order() by {
                    assert(result_bits@ == rb0.push(b));
                    assert(result_bits@[i as int] == b);
                    lemma_sub_upto_push(rb0, b, vid, i as int);
                    lemma_mod_shift(
                        op_coeff(operands[0], vid) + op_coeff(operands[1], vid) - sub_upto(
                            rb0,
                            vid,
                            i as int,
                        ),
                        -p2(i as int),
                        field_order(),
                    );
                }
            }
            cur = match cur {
                Some(c) => Some(c / 2),
                None => None,
            };
            max_value = max_value / 2;
            coeff = coeff * 2;
            i = i + 1;
        }
        proof {
            reveal_with_fuel(p2, 9);
            if i < 9 {
                lemma_p2_mono(i as int, 8);
                lemma_div_is_ordered_by_denominator(510int, p2(i as int), 256int);
            }
        }

        // Enforce that the fully combined expression equals zero, with a
        // single rank-1 constraint.
        if let Err(e) = Self::enforce_addition(&cs, lc, &operands[0], &operands[1], &result_bits) {
            return Err(Int8Error::Synthesis(e));
        }

        // Keep the low eight bits; the higher ones only absorbed the carry.
        result_bits.truncate(8);
        if result_bits.len() != 8 {
            return Err(Int8Error::WrongBitCount);
        }
        let value: Option<i8> = match sum16 {
            Some(s) => Some(s as i8),
            None => None,
        };
        let out = Int8 { bits: result_bits, value };
        proof {
            assert forall|j: int| 0 <= j < 8 implies (#[trigger] out.cells()[j]) is Var by {
                assert(out.cells()[j] == kind_of(out.bits@[j]));
            }
            if sum16 is Some && out.all_assigned() {
                let sv = value.unwrap();
                let ps = pattern_sum.unwrap() as int;
                assert forall|j: int| 0 <= j < 8 implies out.assigned_bits()[j] == bit(ps, j) by {
                    assert(is_assigned(out.bits@[j]));
                    assert(out.assigned_bits()[j] == assigned_of(out.bits@[j]));
                }
                assert(out.assigned_bits() =~= Seq::new(8, |j: int| bit(ps, j)));
                crate::encoding::lemma_bits_le_low_bits(ps, 8);
                reveal_with_fuel(p2, 9);
                assert(p2(8) == 256 && p2(7) == 128);
                lemma_breakdown(ps, 128, 2);
                assert(ps == pat(sv) || ps == pat(sv) + 256);
                lemma_small_mod(pat(sv) as nat, 256nat);
                lemma_mod_multiples_vanish(1, pat(sv), 256);
                assert(ps % 256 == pat(sv));
            }
        }
        Ok(out)
    }
}

/// Every circuit bit of an all-constant byte holds a constant cell.
proof fn lemma_all_constant_kinds(a: Int8)
    requires
        a.wf(),
        a.all_constant(),
    ensures
        forall|i: int| 0 <= i < 8 ==> (#[trigger] kind_of(a.bits@[i])) is Constant,
{
    assert forall|i: int| 0 <= i < 8 implies (#[trigger] kind_of(a.bits@[i])) is Constant by {
        assert(a.cells()[i] == kind_of(a.bits@[i]));
        assert(a.cells()[i] is Constant);
    }
}

/// For two all-constant bytes with known values, the circuit bits hold the
/// same cells position by position exactly when the values are equal.
proof fn lemma_const_kinds_eq(a: Int8, b: Int8)
    requires
        a.wf(),
        b.wf(),
        a.all_constant(),
        b.all_constant(),
        a.spec_value() is Some,
        b.spec_value() is Some,
    ensures
        (forall|i: int| 0 <= i < 8 ==> #[trigger] kind_of(a.bits@[i]) == kind_of(b.bits@[i]))
            <==> a.spec_value() == b.spec_value(),
{
    let va = a.spec_value().unwrap();
    let vb = b.spec_value().unwrap();
    if (forall|i: int| 0 <= i < 8 ==> #[trigger] kind_of(a.bits@[i]) == kind_of(b.bits@[i])) {
        assert forall|i: int| 0 <= i < 8 implies pat_bits(va)[i] == pat_bits(vb)[i] by {
            assert(a.cells()[i] == kind_of(a.bits@[i]));
            assert(b.cells()[i] == kind_of(b.bits@[i]));
            assert(a.cells()[i] is Constant);
            assert(b.cells()[i] is Constant);
        }
        assert(pat_bits(va) =~= pat_bits(vb));
        lemma_pat_bits_injective(va, vb);
    }
    if va == vb {
        assert forall|i: int| 0 <= i < 8 implies #[trigger] kind_of(a.bits@[i]) == kind_of(
            b.bits@[i],
        ) by {
            assert(a.cells()[i] == kind_of(a.bits@[i]));
            assert(b.cells()[i] == kind_of(b.bits@[i]));
            assert(a.cells()[i] is Constant);
            assert(b.cells()[i] is Constant);
        }
    }
}

/// Mode independence: two bytes whose cells are the constant pattern of the
/// same value have identical cells, however they were allocated.
pub proof fn lemma_mode_independent(a: Int8, b: Int8, v: i8)
    requires
        a.wf(),
        b.wf(),
        a.is_constant_of(v),
        b.is_constant_of(v),
    ensures
        a.cells() =~= b.cells(),
{
}

/// A byte with a non-constant cell at some position is not all-constant.
pub proof fn lemma_not_all_constant(a: Int8, i: int)
    requires
        0 <= i < 8,
        !(a.cells()[i] is Constant),
    ensures
        !a.all_constant(),
{
}

/// A byte whose cells are all allocated variables is not all-constant.
pub proof fn lemma_var_cells_not_all_constant(a: Int8)
    requires
        forall|i: int| 0 <= i < 8 ==> a.cells()[i] is Var,
    ensures
        !a.all_constant(),
{
    assert(!(a.cells()[0] is Constant));
}

/// Round trip restated over the gadget's view: a byte whose cells are the
/// constant pattern of `v` decodes, under two's complement, back to `v`.
pub proof fn lemma_constant_round_trip(a: Int8, v: i8)
    requires
        a.wf(),
        a.is_constant_of(v),
    ensures
        crate::encoding::decode(Seq::new(8, |i: int| a.cells()[i]->Constant_0)) == v,
{
    assert(Seq::new(8, |i: int| a.cells()[i]->Constant_0) =~= pat_bits(v));
    lemma_round_trip(v);
}

} // verus!

