//! Obligations, and how a goal unfolds into them.

use vstd::prelude::*;
use crate::environment::{merge, Environment, InEnvironment};
use crate::goal::{Binders, DomainGoal, Goal, LeafGoal, ProgramClause, QuantifierKind, Term};

verus! {

/// A goal that is still to be resolved.
#[derive(Debug, PartialEq, Eq)]
pub enum Obligation {
    /// A goal to prove. Positive goals are flattened down to their leaves.
    Prove(InEnvironment<Goal>),
    /// A goal to refute. A negation is not flattened: that would take a
    /// disjunction. It is solved by a proof attempt of its own.
    Refute(InEnvironment<Goal>),
}

/// An obligation as contracts speak of it: its direction, the clauses in
/// scope and the goal.
pub enum ObligationView {
    Prove(Seq<ProgramClause>, Goal),
    Refute(Seq<ProgramClause>, Goal),
}

impl View for Obligation {
    type V = ObligationView;

    open spec fn view(&self) -> ObligationView {
        match *self {
            Obligation::Prove(placed) => ObligationView::Prove(placed.environment@, placed.goal),
            Obligation::Refute(placed) => ObligationView::Refute(placed.environment@, placed.goal),
        }
    }
}

/// The views of `items`, in order.
pub open spec fn placed<G>(items: Seq<InEnvironment<G>>) -> Seq<(Seq<ProgramClause>, G)> {
    items.map_values(|item: InEnvironment<G>| item@)
}

/// The views of `items`, in order.
pub open spec fn obligation_views(items: Seq<Obligation>) -> Seq<ObligationView> {
    items.map_values(|item: Obligation| item@)
}

/// The obligations to prove the domain goals `goals`, in order.
pub open spec fn derived(goals: Seq<InEnvironment<DomainGoal>>) -> Seq<ObligationView> {
    goals.map_values(
        |item: InEnvironment<DomainGoal>|
            ObligationView::Prove(item.environment@, Goal::Leaf(LeafGoal::DomainGoal(item.goal))),
    )
}

/// What decomposition meets at the leaves of a goal.
pub enum Atom {
    /// An obligation to queue.
    Obligation(ObligationView),
    /// The goal that cannot be proved.
    CannotProve,
    /// A quantified goal: its binders are to be instantiated by the
    /// inference table before decomposition can enter it.
    Instantiate(QuantifierKind, Seq<ProgramClause>, Binders),
    /// An equality: the inference table is to unify the two terms.
    Unify(Seq<ProgramClause>, Term, Term),
}

/// The atoms of `goal` under the clauses `environment`, from left to right.
///
/// An implication extends the environment for its body alone. A
/// conjunction gives both sides the same environment. A negation is one
/// atom: it is not entered.
pub open spec fn unfold(environment: Seq<ProgramClause>, goal: Goal) -> Seq<Atom>
    decreases goal,
{
    match goal {
        Goal::Quantified(kind, binders) => seq![Atom::Instantiate(kind, environment, binders)],
        Goal::Implies(clauses, body) => unfold(merge(environment, clauses@), *body),
        Goal::And(left, right) => unfold(environment, *left) + unfold(environment, *right),
        Goal::Not(body) => seq![Atom::Obligation(ObligationView::Refute(environment, *body))],
        Goal::Leaf(LeafGoal::DomainGoal(_)) => seq![
            Atom::Obligation(ObligationView::Prove(environment, goal)),
        ],
        Goal::Leaf(LeafGoal::EqGoal(eq)) => seq![Atom::Unify(environment, eq.a, eq.b)],
        Goal::CannotProve => seq![Atom::CannotProve],
    }
}

/// The atoms of a stack of goals, the top of the stack (its last entry)
/// first.
pub open spec fn frontier(pending: Seq<(Seq<ProgramClause>, Goal)>) -> Seq<Atom>
    decreases pending.len(),
{
    if pending.len() == 0 {
        Seq::empty()
    } else {
        unfold(pending.last().0, pending.last().1) + frontier(pending.drop_last())
    }
}

/// The sizes of the goals of a stack, added up.
pub open spec fn weight(pending: Seq<(Seq<ProgramClause>, Goal)>) -> nat
    decreases pending.len(),
{
    if pending.len() == 0 {
        0
    } else {
        pending.last().1.size() + weight(pending.drop_last())
    }
}

/// Where decomposition stands once it has gone through atoms as far as it
/// can without the inference table.
pub struct Settled {
    /// The obligations queued so far.
    pub obligations: Seq<ObligationView>,
    /// Whether a goal that cannot be proved was met.
    pub cannot_prove: bool,
    /// The atom that needs the inference table, if one was reached.
    pub request: Option<Atom>,
    /// The atoms after it.
    pub rest: Seq<Atom>,
}

/// Goes through `atoms` from the left up to the first that needs the
/// inference table: each obligation is queued behind `obligations`, and the
/// goal that cannot be proved raises the flag.
pub open spec fn settle(obligations: Seq<ObligationView>, cannot_prove: bool, atoms: Seq<Atom>) -> Settled
    decreases atoms.len(),
{
    if atoms.len() == 0 {
        Settled { obligations, cannot_prove, request: None, rest: atoms }
    } else {
        match atoms[0] {
            Atom::Obligation(obligation) => settle(obligations.push(obligation), cannot_prove, atoms.skip(1)),
            Atom::CannotProve => settle(obligations, true, atoms.skip(1)),
            _ => Settled { obligations, cannot_prove, request: Some(atoms[0]), rest: atoms.skip(1) },
        }
    }
}

/// What decomposition asks of the inference table before it can go on.
#[derive(Debug, PartialEq, Eq)]
pub enum Request {
    /// Instantiate the binders: those of a universal goal with fresh
    /// placeholders of a new universe, those of an existential goal with
    /// fresh inference variables. The goal that results is pushed under the
    /// environment given here.
    Instantiate(QuantifierKind, Environment, Binders),
    /// Unify the two terms under the environment, and hand in what came of
    /// it.
    Unify(Environment, Term, Term),
}

impl View for Request {
    type V = Atom;

    open spec fn view(&self) -> Atom {
        match *self {
            Request::Instantiate(kind, environment, binders) => Atom::Instantiate(kind, environment@, binders),
            Request::Unify(environment, a, b) => Atom::Unify(environment@, a, b),
        }
    }
}

/// The view of a request, or none.
pub open spec fn request_view(request: Option<Request>) -> Option<Atom> {
    match request {
        Some(request) => Some(request@),
        None => None,
    }
}

} // verus!
