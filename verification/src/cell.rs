use vstd::prelude::*;
use ark_relations::r1cs::Variable;

verus! {

/// How a circuit value comes into being: baked into the circuit as a
/// constant, allocated as a public input, or allocated as a private witness.
#[derive(Clone, Copy, PartialEq, Eq, Structural)]
pub enum AllocationMode {
    Constant,
    Input,
    Witness,
}

/// The shape of a bit cell, with the payload of a constant cell: a
/// compile-time constant bit, a reference to an allocated binary variable,
/// or the logical negation of such a reference.
#[derive(Clone, Copy, PartialEq, Eq, Structural)]
pub enum CellKind {
    Constant(bool),
    Var,
    NegVar,
}

/// A bit cell as executable data: its kind together with the constraint
/// system variable it refers to, if any.
pub enum BitCell {
    Constant(bool),
    Var(Variable),
    NegVar(Variable),
}

impl BitCell {
    /// The kind of this cell, keeping the payload of a constant cell.
    pub open spec fn kind(self) -> CellKind {
        match self {
            BitCell::Constant(b) => CellKind::Constant(b),
            BitCell::Var(_) => CellKind::Var,
            BitCell::NegVar(_) => CellKind::NegVar,
        }
    }
}

} // verus!
