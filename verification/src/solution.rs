//! Answers: substitutions, solutions and what the collaborators report.

use vstd::prelude::*;
use crate::environment::InEnvironment;
use crate::goal::{Constraint, DomainGoal, InferenceVar, ParameterKind, Term};

verus! {

/// The proof fails: the goal has no solution.
#[derive(Clone, Copy, Debug, PartialEq, Eq, Structural)]
pub struct NoSolution;

/// The inference table could not make two terms equal.
#[derive(Clone, Copy, Debug, PartialEq, Eq, Structural)]
pub struct UnifyError;

/// A term for each free variable of a goal, by position.
#[derive(Debug, PartialEq, Eq)]
pub struct Substitution {
    pub parameters: Vec<Term>,
}

/// A substitution and the constraints under which it is valid.
#[derive(Debug, PartialEq, Eq)]
pub struct ConstrainedSubst {
    pub subst: Substitution,
    pub constraints: Vec<InEnvironment<Constraint>>,
}

/// The sort and the universe of a variable of a canonical value.
#[derive(Clone, Copy, Debug, PartialEq, Eq, Structural)]
pub struct CanonicalBinder {
    pub kind: ParameterKind,
    pub universe: u32,
}

/// A value whose free variables were replaced by positions, so that it can
/// pass from one inference table to another.
#[derive(Debug, PartialEq, Eq)]
pub struct Canonical<T> {
    pub value: T,
    pub binders: Vec<CanonicalBinder>,
}

/// What is known of an answer that is not unique.
#[derive(Debug, PartialEq, Eq)]
pub enum Guidance {
    /// The outer shape of the substitution is forced.
    Definite(Canonical<Substitution>),
    /// A substitution that may help and binds nobody.
    Suggested(Canonical<Substitution>),
    /// Nothing is known.
    Unknown,
}

#[derive(Debug, PartialEq, Eq)]
pub enum Solution {
    /// The one valid answer.
    Unique(Canonical<ConstrainedSubst>),
    /// Several answers may be valid.
    Ambig(Guidance),
}

impl Solution {
    pub fn is_unique(&self) -> (unique: bool)
        ensures
            unique == (self is Unique),
    {
        match self {
            Solution::Unique(_) => true,
            Solution::Ambig(_) => false,
        }
    }

    pub fn is_ambig(&self) -> (ambiguous: bool)
        ensures
            ambiguous == (self is Ambig),
    {
        match self {
            Solution::Unique(_) => false,
            Solution::Ambig(_) => true,
        }
    }

    /// Whether the solution binds: it is unique, or its guidance is definite.
    pub open spec fn definite(self) -> bool {
        match self {
            Solution::Unique(_) => true,
            Solution::Ambig(Guidance::Definite(_)) => true,
            _ => false,
        }
    }

    /// Whether the solution carries a substitution: every solution does but
    /// the one of which nothing is known.
    pub open spec fn concrete(self) -> bool {
        self != Solution::Ambig(Guidance::Unknown)
    }

    /// Whether `out` is the substitution that the solution carries: that of a
    /// unique solution as it stands, that of a guidance without constraints.
    pub open spec fn carries(self, out: Canonical<ConstrainedSubst>) -> bool {
        match self {
            Solution::Unique(constrained) => out == constrained,
            Solution::Ambig(Guidance::Definite(subst)) | Solution::Ambig(Guidance::Suggested(subst)) => {
                &&& out.binders == subst.binders
                &&& out.value.subst == subst.value
                &&& out.value.constraints@.len() == 0
            },
            Solution::Ambig(Guidance::Unknown) => false,
        }
    }

    pub fn has_definite(&self) -> (definite: bool)
        ensures
            definite == self.definite(),
    {
        match self {
            Solution::Unique(_) => true,
            Solution::Ambig(Guidance::Definite(_)) => true,
            _ => false,
        }
    }

    /// The substitution that the solution carries, if it carries one.
    pub fn constrained_subst(self) -> (out: Option<Canonical<ConstrainedSubst>>)
        ensures
            out is Some <==> self.concrete(),
            out is Some ==> self.carries(out->0),
    {
        match self {
            Solution::Unique(constrained) => Some(constrained),
            Solution::Ambig(Guidance::Definite(subst)) | Solution::Ambig(Guidance::Suggested(subst)) => {
                let value = ConstrainedSubst { subst: subst.value, constraints: Vec::new() };
                Some(Canonical { value, binders: subst.binders })
            },
            Solution::Ambig(Guidance::Unknown) => None,
        }
    }
}

/// For each universe of a canonical value, the universe of the enclosing
/// context that it stands for.
#[derive(Debug, PartialEq, Eq)]
pub struct UniverseMap {
    pub universes: Vec<u32>,
}

/// What the recursive solver found for a goal, with what is needed to carry
/// the answer back: the free variables of the goal in the order of their
/// positions, and the universes of the goal.
#[derive(Debug, PartialEq, Eq)]
pub struct PositiveSolution {
    pub free_vars: Vec<InferenceVar>,
    pub universes: UniverseMap,
    pub solution: Solution,
}

/// A substitution that the solver found for an obligation, with what is
/// needed to carry it into the enclosing context: the free variables of the
/// obligation's goal in the order of their positions, and its universes.
#[derive(Debug, PartialEq, Eq)]
pub struct Application {
    pub free_vars: Vec<InferenceVar>,
    pub universes: UniverseMap,
    pub subst: Canonical<ConstrainedSubst>,
}

/// What came of an attempt to refute a goal. A refutation binds no variable.
#[derive(Clone, Copy, Debug, PartialEq, Eq, Structural)]
pub enum NegativeSolution {
    Refuted,
    Ambiguous,
}

/// What the inference table derived while it made two terms equal.
#[derive(Debug, PartialEq, Eq)]
pub struct UnificationResult {
    pub goals: Vec<InEnvironment<DomainGoal>>,
    pub constraints: Vec<InEnvironment<Constraint>>,
}

/// How the rounds ended.
#[derive(Clone, Copy, Debug, PartialEq, Eq, Structural)]
pub enum Outcome {
    /// No obligation is left.
    Complete,
    /// Some obligations stayed ambiguous.
    Incomplete,
}

impl Outcome {
    pub fn is_complete(&self) -> (complete: bool)
        ensures
            complete == (*self == Outcome::Complete),
    {
        match *self {
            Outcome::Complete => true,
            _ => false,
        }
    }
}

} // verus!
