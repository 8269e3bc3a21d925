//! The trusted boundary to the constraint-system engine.
//!
//! Everything the library asks of the engine goes through the items in this
//! module: opaque holders for the engine's types, one wrapper per engine
//! function the library calls, and `kind_of`, the name under which the
//! contracts speak of what a circuit bit holds.

use vstd::prelude::*;
use crate::cell::{AllocationMode, BitCell, CellKind};
use ark_bls12_381::Fr;
use ark_r1cs_std::alloc::AllocVar;
use ark_r1cs_std::boolean::Boolean;
use ark_r1cs_std::eq::EqGadget;
use ark_r1cs_std::R1CSVar;
use ark_relations::r1cs::{ConstraintSystem, ConstraintSystemRef, LinearCombination,
    SynthesisError, SynthesisMode, Variable};

verus! {

#[verifier::external_type_specification]
#[verifier::external_body]
pub struct ExVariable(Variable);

#[verifier::external_type_specification]
#[verifier::external_body]
pub struct ExSynthesisError(SynthesisError);

/// A boolean circuit value of the engine: a constant bit, an allocated
/// binary variable, or the negation of one.
#[verifier::external_body]
pub struct CircuitBool {
    inner: Boolean<Fr>,
}

/// A shared handle to the engine's constraint system.
#[verifier::external_body]
pub struct SystemRef {
    inner: ConstraintSystemRef<Fr>,
}

/// An accumulating sum of `(coefficient, variable)` terms plus a constant
/// term, owned by the engine.
#[verifier::external_body]
pub struct LinearExpr {
    inner: LinearCombination<Fr>,
}

/// The cell a `CircuitBool` holds: which of the three shapes it is, and,
/// for a constant, which bit. This is a pure function of the value.
pub uninterp spec fn kind_of(b: CircuitBool) -> CellKind;

/// The identity of an engine variable: an injection of `Variable` values
/// into the integers under which the constant-one variable has `one_id()`
/// and every allocated variable a nonnegative id.
pub uninterp spec fn var_id(v: Variable) -> int;

/// The identity of the variable a circuit bit refers to, meaningful for
/// the allocated and negated shapes.
pub uninterp spec fn ref_id(b: CircuitBool) -> int;

/// The canonical coefficient, in `[0, field_order())`, that a linear
/// expression carries on the variable with the given id; zero when the
/// variable does not occur.
pub uninterp spec fn lc_coeff(lc: LinearExpr, vid: int) -> int;

/// The bit's value under the system's assignment: the constant itself for
/// a constant bit, the assigned value (negated for a negated reference)
/// for an allocated one. Assignments are append-only and never rewritten,
/// so this is a function of the bit.
pub uninterp spec fn assigned_of(b: CircuitBool) -> bool;

/// Whether the bit has a value under the system's assignment. Constants
/// always do; an allocated bit does exactly when its allocation supplied
/// a value.
pub uninterp spec fn is_assigned(b: CircuitBool) -> bool;

/// Whether a handle denotes no system at all, as the handle of a constant
/// does.
pub uninterp spec fn is_empty_handle(s: SystemRef) -> bool;

/// Whether the handle's system is in setup mode, where allocations record
/// variables but no assignment. The mode is fixed when the system is made
/// and never changed afterwards by this crate, so this is a function of
/// the handle.
pub uninterp spec fn is_setup(s: SystemRef) -> bool;

/// Whether the system a bit refers to is in setup mode; meaningful for
/// the non-constant shapes, which always refer to a real system.
pub uninterp spec fn in_setup(b: CircuitBool) -> bool;

/// The id of the engine's constant-one variable, on which a linear
/// expression's constant term rests.
pub open spec fn one_id() -> int {
    -1
}

/// The order of the scalar field the coefficients live in.
pub open spec fn field_order() -> int {
    0x73eda753299d7d483339d80809a1d805int * 0x10000000000000000int * 0x10000000000000000int
        + 0x53bda402fffe5bfeffffffff00000001int
}

impl SystemRef {
    /// Relies on `ConstraintSystem::new_ref`: a fresh, empty constraint
    /// system in proving mode.
    #[verifier::external_body]
    pub fn new_system() -> (r: SystemRef)
        ensures
            !is_empty_handle(r),
            !is_setup(r),
    {
        SystemRef { inner: ConstraintSystem::<Fr>::new_ref() }
    }

    /// Relies on `ConstraintSystem::new_ref` and
    /// `ConstraintSystemRef::set_mode`: a fresh constraint system in setup
    /// mode, where allocation succeeds without a value and assigns
    /// nothing.
    #[verifier::external_body]
    pub fn new_setup_system() -> (r: SystemRef)
        ensures
            !is_empty_handle(r),
            is_setup(r),
    {
        let cs = ConstraintSystem::<Fr>::new_ref();
        cs.set_mode(SynthesisMode::Setup);
        SystemRef { inner: cs }
    }

    /// Relies on `ConstraintSystemRef::None`: the empty handle, touched by
    /// no allocation.
    #[verifier::external_body]
    pub(crate) fn none() -> (r: SystemRef)
        ensures
            is_empty_handle(r),
    {
        SystemRef { inner: ConstraintSystemRef::None }
    }

    /// Relies on `ConstraintSystemRef::or`: this handle if it is a real
    /// system, else the other.
    #[verifier::external_body]
    pub(crate) fn or(self, other: SystemRef) -> (r: SystemRef)
        ensures
            is_empty_handle(r) <==> (is_empty_handle(self) && is_empty_handle(other)),
            !is_empty_handle(self) ==> is_setup(r) == is_setup(self),
            is_empty_handle(self) ==> is_setup(r) == is_setup(other),
    {
        SystemRef { inner: self.inner.or(other.inner) }
    }

    /// Relies on `ConstraintSystemRef::is_satisfied`: whether the recorded
    /// constraints all hold of the current assignment.
    #[verifier::external_body]
    pub fn is_satisfied(&self) -> Result<bool, SynthesisError> {
        self.inner.is_satisfied()
    }

    /// Relies on `ConstraintSystemRef::num_witness_variables`: how many
    /// witness variables the system has allocated so far.
    #[verifier::external_body]
    pub fn num_witness_variables(&self) -> usize {
        self.inner.num_witness_variables()
    }

    /// Relies on `ConstraintSystemRef::enforce_constraint`: records the
    /// rank-1 constraint `0 * 0 = lc`, that is, that `lc` equals zero; it
    /// fails only on the empty handle.
    #[verifier::external_body]
    pub(crate) fn enforce_zero(&self, lc: LinearExpr) -> (r: Result<(), SynthesisError>)
        ensures
            r is Err ==> is_empty_handle(*self),
    {
        self.inner.enforce_constraint(
            LinearCombination(Vec::new()),
            LinearCombination(Vec::new()),
            lc.inner,
        )
    }
}

impl CircuitBool {
    /// Relies on `Boolean::Constant`: builds the constant circuit bit `b`,
    /// touching no constraint system.
    #[verifier::external_body]
    pub fn constant(b: bool) -> (r: CircuitBool)
        ensures
            kind_of(r) == CellKind::Constant(b),
            is_assigned(r) && assigned_of(r) == b,
    {
        CircuitBool { inner: Boolean::Constant(b) }
    }

    /// Relies on `Boolean::clone`: the clone is the same value, so it holds
    /// the same cell.
    #[verifier::external_body]
    pub(crate) fn another(&self) -> (r: CircuitBool)
        ensures
            kind_of(r) == kind_of(*self),
            ref_id(r) == ref_id(*self),
            is_assigned(r) == is_assigned(*self),
            assigned_of(r) == assigned_of(*self),
    {
        CircuitBool { inner: self.inner.clone() }
    }

    /// Relies on `Boolean`'s variant match and `AllocatedBool::variable`:
    /// reads which of the three shapes the bit is and the variable it
    /// refers to.
    #[verifier::external_body]
    pub(crate) fn cell(&self) -> (r: BitCell)
        ensures
            r.kind() == kind_of(*self),
            r matches BitCell::Var(v) ==> var_id(v) == ref_id(*self),
            r matches BitCell::NegVar(v) ==> var_id(v) == ref_id(*self),
    {
        match &self.inner {
            Boolean::Is(v) => BitCell::Var(v.variable()),
            Boolean::Not(v) => BitCell::NegVar(v.variable()),
            Boolean::Constant(c) => BitCell::Constant(*c),
        }
    }

    /// Relies on `Boolean::value`: a constant bit's value is that constant;
    /// an allocated bit's value is read from the system's assignment. Every
    /// `Boolean` in this crate wraps a boolean-constrained allocation, which
    /// the engine guarantees is assigned zero or one.
    #[verifier::external_body]
    pub fn value(&self) -> (r: Result<bool, SynthesisError>)
        ensures
            r matches Ok(c) ==> c == assigned_of(*self),
            r matches Ok(c) ==> (kind_of(*self) matches CellKind::Constant(k) ==> c == k),
            r is Ok <==> is_assigned(*self),
            r is Err ==> !(kind_of(*self) is Constant),
    {
        self.inner.value()
    }

    /// Relies on `Boolean::cs` (`R1CSVar`): the system handle the bit
    /// refers to, or the empty handle for a constant. Every non-constant
    /// bit of this crate comes from an allocation on a real system, so its
    /// handle is never empty.
    #[verifier::external_body]
    pub(crate) fn system(&self) -> (r: SystemRef)
        ensures
            kind_of(*self) is Constant ==> is_empty_handle(r),
            !(kind_of(*self) is Constant) ==> !is_empty_handle(r),
            !(kind_of(*self) is Constant) ==> is_setup(r) == in_setup(*self),
    {
        SystemRef { inner: self.inner.cs() }
    }

    /// Relies on `Boolean::new_variable`: under `Constant` mode it returns
    /// `Boolean::Constant` of the given bit without touching the system,
    /// and fails exactly when no bit is given; under the other modes it
    /// allocates a fresh boolean-constrained variable and returns
    /// `Boolean::Is` of it, failing only on the empty handle or, outside
    /// setup mode, on a missing value. Outside setup mode the supplied
    /// value becomes the variable's assignment; in setup mode nothing is
    /// assigned.
    #[verifier::external_body]
    pub(crate) fn allocate(
        cs: &SystemRef,
        value: Option<bool>,
        mode: AllocationMode,
    ) -> (r: Result<CircuitBool, SynthesisError>)
        ensures
            r matches Ok(b) ==> (mode == AllocationMode::Constant ==> value is Some
                && kind_of(b) == CellKind::Constant(value.unwrap())),
            r matches Ok(b) ==> (mode != AllocationMode::Constant ==> kind_of(b) is Var
                && ref_id(b) >= 0 && in_setup(b) == is_setup(*cs)),
            r matches Ok(b) ==> ((value is Some && (mode == AllocationMode::Constant
                || !is_setup(*cs))) ==> is_assigned(b) && assigned_of(b) == value.unwrap()),
            r matches Ok(b) ==> (value is Some ==> (is_assigned(b) ==> assigned_of(b)
                == value.unwrap())),
            r is Err ==> (mode == AllocationMode::Constant ==> value is None),
            r is Err ==> (mode != AllocationMode::Constant ==> is_empty_handle(*cs) || (!is_setup(
                *cs,
            ) && value is None)),
    {
        let m = match mode {
            AllocationMode::Constant => ark_r1cs_std::alloc::AllocationMode::Constant,
            AllocationMode::Input => ark_r1cs_std::alloc::AllocationMode::Input,
            AllocationMode::Witness => ark_r1cs_std::alloc::AllocationMode::Witness,
        };
        let b = Boolean::new_variable(
            cs.inner.clone(),
            || value.ok_or(SynthesisError::AssignmentMissing),
            m,
        )?;
        Ok(CircuitBool { inner: b })
    }
}

impl LinearExpr {
    /// Relies on `LinearCombination` being a plain term list: the empty
    /// linear combination, with coefficient zero on every variable.
    #[verifier::external_body]
    pub(crate) fn zero() -> (r: LinearExpr)
        ensures
            forall|vid: int| lc_coeff(r, vid) == 0,
    {
        LinearExpr { inner: LinearCombination(Vec::new()) }
    }

    /// Relies on `LinearCombination + (coeff, var)`: adds `coeff * var` to
    /// the combination, in the field, touching no other variable's
    /// coefficient.
    #[verifier::external_body]
    pub(crate) fn add_var(&mut self, coeff: u64, var: &Variable)
        ensures
            lc_coeff(*final(self), var_id(*var)) == (lc_coeff(*old(self), var_id(*var)) + coeff)
                % field_order(),
            forall|vid: int| vid != var_id(*var) ==> #[trigger] lc_coeff(*final(self), vid) == lc_coeff(
                *old(self),
                vid,
            ),
    {
        self.inner += (Fr::from(coeff), *var);
    }

    /// Relies on `LinearCombination + (coeff, Variable::One)`: adds the
    /// constant term `coeff` to the combination, in the field, touching no
    /// variable's coefficient.
    #[verifier::external_body]
    pub(crate) fn add_one(&mut self, coeff: u64)
        ensures
            lc_coeff(*final(self), one_id()) == (lc_coeff(*old(self), one_id()) + coeff)
                % field_order(),
            forall|vid: int| vid != one_id() ==> #[trigger] lc_coeff(*final(self), vid) == lc_coeff(
                *old(self),
                vid,
            ),
    {
        self.inner += (Fr::from(coeff), Variable::One);
    }

    /// Relies on `LinearCombination - (coeff, var)`: subtracts
    /// `coeff * var` from the combination, in the field, touching no other
    /// variable's coefficient.
    #[verifier::external_body]
    pub(crate) fn sub_var(&mut self, coeff: u64, var: &Variable)
        ensures
            lc_coeff(*final(self), var_id(*var)) == (lc_coeff(*old(self), var_id(*var)) - coeff)
                % field_order(),
            forall|vid: int| vid != var_id(*var) ==> #[trigger] lc_coeff(*final(self), vid) == lc_coeff(
                *old(self),
                vid,
            ),
    {
        self.inner = core::mem::take(&mut self.inner) - (Fr::from(coeff), *var);
    }
}

/// Relies on `EqGadget::is_eq` for bit slices: pairwise `is_eq` folded by
/// `kary_and`. On two all-constant slices every step folds constants, so
/// the result is the constant bit saying whether the payloads agree
/// position by position. When every input bit has an assigned value, each
/// pairwise gadget's witness is the exclusive-or of its inputs' values
/// negated, and the conjunction's witness the conjunction of those, so the
/// result's assigned value says whether the two slices' values agree
/// position by position. Panics on slices of unequal or zero length, which
/// the precondition rules out.
#[verifier::external_body]
pub(crate) fn bools_is_eq(
    a: &Vec<CircuitBool>,
    b: &Vec<CircuitBool>,
) -> (r: Result<CircuitBool, SynthesisError>)
    requires
        a@.len() == b@.len(),
        a@.len() > 0,
    ensures
        r matches Ok(e) ==> ((forall|i: int|
            0 <= i < a@.len() ==> kind_of(a@[i]) is Constant && kind_of(b@[i]) is Constant)
            ==> kind_of(e) == CellKind::Constant(
                (forall|i: int| 0 <= i < a@.len() ==> kind_of(a@[i]) == kind_of(b@[i])),
            )),
        r matches Ok(e) ==> ((forall|i: int|
            0 <= i < a@.len() ==> is_assigned(#[trigger] a@[i]) && is_assigned(b@[i]))
            ==> is_assigned(e) && (assigned_of(e) <==> (forall|i: int|
            0 <= i < a@.len() ==> assigned_of(#[trigger] a@[i]) == assigned_of(b@[i])))),
        r is Err ==> !(forall|i: int|
            0 <= i < a@.len() ==> kind_of(a@[i]) is Constant && kind_of(b@[i]) is Constant),
        r is Err ==> !(forall|i: int|
            0 <= i < a@.len() ==> is_assigned(#[trigger] a@[i]) && is_assigned(b@[i])),
{
    let xs: Vec<Boolean<Fr>> = a.iter().map(|x| x.inner.clone()).collect();
    let ys: Vec<Boolean<Fr>> = b.iter().map(|y| y.inner.clone()).collect();
    let e = xs.as_slice().is_eq(ys.as_slice())?;
    Ok(CircuitBool { inner: e })
}

/// Relies on `EqGadget::conditional_enforce_equal` for bit slices: enforces
/// position-wise equality under the condition. On a pair of constant bits
/// it adds nothing and succeeds when they agree, and fails with
/// `AssignmentMissing` when they differ, whatever the condition. Panics on
/// slices of unequal length, which the precondition rules out.
#[verifier::external_body]
pub(crate) fn bools_cond_enforce_equal(
    a: &Vec<CircuitBool>,
    b: &Vec<CircuitBool>,
    condition: &CircuitBool,
) -> (r: Result<(), SynthesisError>)
    requires
        a@.len() == b@.len(),
    ensures
        (forall|i: int| 0 <= i < a@.len() ==> kind_of(a@[i]) is Constant && kind_of(b@[i]) is Constant)
            ==> (r is Ok <==> (forall|i: int| 0 <= i < a@.len() ==> kind_of(a@[i]) == kind_of(b@[i]))),
        r is Err ==> !(forall|i: int|
            0 <= i < a@.len() ==> ((#[trigger] kind_of(a@[i])) is Constant && kind_of(b@[i])
                is Constant ==> kind_of(a@[i]) == kind_of(b@[i]))),
{
    let xs: Vec<Boolean<Fr>> = a.iter().map(|x| x.inner.clone()).collect();
    let ys: Vec<Boolean<Fr>> = b.iter().map(|y| y.inner.clone()).collect();
    xs.as_slice().conditional_enforce_equal(ys.as_slice(), &condition.inner)
}

/// Relies on `EqGadget::conditional_enforce_not_equal` for bit slices. When
/// both slices and the condition are constants the engine asserts that the
/// slices differ, and panics when they are equal; the precondition rules
/// that case out, as it does unequal and zero lengths.
#[verifier::external_body]
pub(crate) fn bools_cond_enforce_not_equal(
    a: &Vec<CircuitBool>,
    b: &Vec<CircuitBool>,
    condition: &CircuitBool,
) -> (r: Result<(), SynthesisError>)
    requires
        a@.len() == b@.len(),
        a@.len() > 0,
        !(kind_of(*condition) is Constant
            && (forall|i: int| 0 <= i < a@.len() ==> kind_of(a@[i]) is Constant
                && kind_of(b@[i]) is Constant)
            && (forall|i: int| 0 <= i < a@.len() ==> kind_of(a@[i]) == kind_of(b@[i]))),
    ensures
        (kind_of(*condition) is Constant && (forall|i: int|
            0 <= i < a@.len() ==> kind_of(a@[i]) is Constant && kind_of(b@[i]) is Constant))
            ==> r is Ok,
        r is Err ==> !(forall|i: int|
            0 <= i < a@.len() ==> is_assigned(#[trigger] a@[i]) && is_assigned(b@[i])),
{
    let xs: Vec<Boolean<Fr>> = a.iter().map(|x| x.inner.clone()).collect();
    let ys: Vec<Boolean<Fr>> = b.iter().map(|y| y.inner.clone()).collect();
    xs.as_slice().conditional_enforce_not_equal(ys.as_slice(), &condition.inner)
}

} // verus!
