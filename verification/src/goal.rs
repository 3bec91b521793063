//! Goals and the atoms they are built from.

use vstd::prelude::*;

verus! {

/// An inference variable owned by the inference table.
#[derive(Clone, Copy, Debug, PartialEq, Eq, Structural)]
pub struct InferenceVar {
    pub index: u32,
}

/// A term, as far as the engine looks into it.
///
/// Compound terms are interned by the inference table; the engine only
/// carries them from one call to the next.
#[derive(Clone, Copy, Debug, PartialEq, Eq, Structural)]
pub enum Term {
    /// A free inference variable.
    Var(InferenceVar),
    /// The variable at a position of a canonical value.
    Bound(u32),
    /// A placeholder of a universe.
    Placeholder(u32, u32),
    /// A compound term, by the handle under which it is interned.
    Interned(u64),
}

impl InferenceVar {
    /// The term that stands for this variable.
    pub fn to_parameter(self) -> (term: Term)
        ensures
            term == Term::Var(self),
    {
        Term::Var(self)
    }
}

/// A hypothesis clause, by the handle under which it is interned.
#[derive(Clone, Copy, Debug, PartialEq, Eq, Structural)]
pub struct ProgramClause {
    pub id: u64,
}

/// An atomic predicate of the domain, by the handle under which it is
/// interned. Its meaning is known to the recursive solver alone.
#[derive(Clone, Copy, Debug, PartialEq, Eq, Structural)]
pub struct DomainGoal {
    pub id: u64,
}

/// A condition on regions that must hold besides a substitution.
#[derive(Clone, Copy, Debug, PartialEq, Eq, Structural)]
pub enum Constraint {
    LifetimeEq(Term, Term),
}

/// The sort of a bound variable.
#[derive(Clone, Copy, Debug, PartialEq, Eq, Structural)]
pub enum ParameterKind {
    Ty,
    Lifetime,
}

#[derive(Clone, Copy, Debug, PartialEq, Eq, Structural)]
pub enum QuantifierKind {
    ForAll,
    Exists,
}

/// Two terms that must be made equal.
#[derive(Clone, Copy, Debug, PartialEq, Eq, Structural)]
pub struct EqGoal {
    pub a: Term,
    pub b: Term,
}

#[derive(Clone, Copy, Debug, PartialEq, Eq, Structural)]
pub enum LeafGoal {
    EqGoal(EqGoal),
    DomainGoal(DomainGoal),
}

/// A goal under binders, one per bound variable.
#[derive(Debug, PartialEq, Eq)]
pub struct Binders {
    pub binders: Vec<ParameterKind>,
    pub value: Box<Goal>,
}

/// A logical proposition to be proved or refuted.
#[derive(Debug, PartialEq, Eq)]
pub enum Goal {
    Quantified(QuantifierKind, Binders),
    Implies(Vec<ProgramClause>, Box<Goal>),
    And(Box<Goal>, Box<Goal>),
    Not(Box<Goal>),
    Leaf(LeafGoal),
    /// A goal that can neither be proved nor refuted.
    CannotProve,
}

impl Goal {
    /// The number of connectives and atoms that decomposition walks through.
    /// Quantifiers and negations count as atoms: decomposition does not
    /// enter them.
    pub open spec fn size(self) -> nat
        decreases self,
    {
        match self {
            Goal::Implies(_, body) => 1 + body.size(),
            Goal::And(left, right) => 1 + left.size() + right.size(),
            _ => 1,
        }
    }
}

} // verus!
