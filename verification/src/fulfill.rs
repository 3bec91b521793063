//! The fulfillment context: the state of one proof attempt.

use vstd::prelude::*;
use crate::environment::{distinct, lemma_merge, merge, InEnvironment};
use crate::goal::{Constraint, Goal, LeafGoal, ProgramClause};
use crate::obligation::{
    derived, frontier, obligation_views, placed, settle, unfold, weight, Atom, Obligation, ObligationView,
    Settled,
};
use crate::solution::{NoSolution, UnificationResult, UnifyError};

pub mod decompose;
pub mod rounds;
pub mod assembly;

verus! {

/// The state of one proof attempt.
///
/// It breaks a goal down into obligations, keeps the obligations that are
/// still open and the constraints that were met on the way, and remembers
/// whether a goal came by that cannot be proved. It lives for one attempt
/// and is not used again once the attempt has its answer.
///
/// The inference table of the attempt and the recursive solver are not
/// held here. Each method takes what they returned, and its result says what
/// to ask of them next.
#[derive(Debug, PartialEq, Eq)]
pub struct Fulfill {
    /// Goals that wait to be decomposed: a stack, its top is the last entry.
    pending: Vec<InEnvironment<Goal>>,
    /// The obligations that this round has not tried yet: a stack.
    obligations: Vec<Obligation>,
    /// The obligations that this round found ambiguous.
    deferred: Vec<Obligation>,
    /// The constraints under which a solution is valid. None is held twice.
    constraints: Vec<InEnvironment<Constraint>>,
    /// Whether a goal was met that can neither be proved nor refuted.
    cannot_prove: bool,
    /// Whether this round has applied a substitution.
    progress: bool,
}

/// The state of a proof attempt as contracts speak of it.
pub struct FulfillView {
    pub pending: Seq<(Seq<ProgramClause>, Goal)>,
    pub obligations: Seq<ObligationView>,
    pub deferred: Seq<ObligationView>,
    pub constraints: Seq<(Seq<ProgramClause>, Constraint)>,
    pub cannot_prove: bool,
    pub progress: bool,
}

impl View for Fulfill {
    type V = FulfillView;

    closed spec fn view(&self) -> FulfillView {
        FulfillView {
            pending: placed(self.pending@),
            obligations: obligation_views(self.obligations@),
            deferred: obligation_views(self.deferred@),
            constraints: placed(self.constraints@),
            cannot_prove: self.cannot_prove,
            progress: self.progress,
        }
    }
}

pub(crate) proof fn lemma_placed_push<G>(items: Seq<InEnvironment<G>>, item: InEnvironment<G>)
    ensures
        placed(items.push(item)) == placed(items).push(item@),
{
    assert(placed(items.push(item)) =~= placed(items).push(item@));
}

pub(crate) proof fn lemma_placed_drop_last<G>(items: Seq<InEnvironment<G>>)
    requires
        items.len() > 0,
    ensures
        placed(items.drop_last()) == placed(items).drop_last(),
        placed(items).last() == items.last()@,
{
    assert(placed(items.drop_last()) =~= placed(items).drop_last());
}

pub(crate) proof fn lemma_views_push(items: Seq<Obligation>, item: Obligation)
    ensures
        obligation_views(items.push(item)) == obligation_views(items).push(item@),
{
    assert(obligation_views(items.push(item)) =~= obligation_views(items).push(item@));
}

pub(crate) proof fn lemma_views_drop_last(items: Seq<Obligation>)
    requires
        items.len() > 0,
    ensures
        obligation_views(items.drop_last()) == obligation_views(items).drop_last(),
        obligation_views(items).last() == items.last()@,
{
    assert(obligation_views(items.drop_last()) =~= obligation_views(items).drop_last());
}

/// A goal pushed on the stack comes first in the frontier and adds its size
/// to the weight.
pub(crate) proof fn lemma_stack_push(pending: Seq<(Seq<ProgramClause>, Goal)>, environment: Seq<ProgramClause>, goal: Goal)
    ensures
        frontier(pending.push((environment, goal))) == unfold(environment, goal) + frontier(pending),
        weight(pending.push((environment, goal))) == goal.size() + weight(pending),
{
    let pushed = pending.push((environment, goal));
    assert(pushed.drop_last() =~= pending);
    assert(pushed.last() == (environment, goal));
}

/// Going through atoms one after the other is going through them at once.
pub(crate) proof fn lemma_settle_first(obligations: Seq<ObligationView>, cannot_prove: bool, first: Atom, rest: Seq<Atom>)
    ensures
        settle(obligations, cannot_prove, seq![first] + rest) == match first {
            Atom::Obligation(obligation) => settle(obligations.push(obligation), cannot_prove, rest),
            Atom::CannotProve => settle(obligations, true, rest),
            _ => Settled { obligations, cannot_prove, request: Some(first), rest },
        },
{
    let atoms = seq![first] + rest;
    assert(atoms[0] == first);
    assert(atoms.skip(1) =~= rest);
}

/// Whether `item` is among `list`.
fn holds(list: &Vec<InEnvironment<Constraint>>, item: &InEnvironment<Constraint>) -> (found: bool)
    ensures
        found == placed(list@).contains(item@),
{
    let mut i: usize = 0;
    while i < list.len()
        invariant
            i <= list.len(),
            forall|k: int| 0 <= k < i ==> placed(list@)[k] != item@,
        decreases list.len() - i,
    {
        if list[i].goal == item.goal && list[i].environment.same(&item.environment) {
            assert(placed(list@)[i as int] == item@);
            return true;
        }
        i += 1;
    }
    false
}

impl Fulfill {
    /// Whether no constraint is held twice.
    pub open spec fn wf(&self) -> bool {
        distinct(self@.constraints)
    }

    /// A fresh context: nothing to decompose, no obligation, no constraint.
    pub fn new() -> (fulfill: Fulfill)
        ensures
            fulfill@ == (FulfillView {
                pending: Seq::empty(),
                obligations: Seq::empty(),
                deferred: Seq::empty(),
                constraints: Seq::empty(),
                cannot_prove: false,
                progress: false,
            }),
            fulfill.wf(),
    {
        let fulfill = Fulfill {
            pending: Vec::new(),
            obligations: Vec::new(),
            deferred: Vec::new(),
            constraints: Vec::new(),
            cannot_prove: false,
            progress: false,
        };
        assert(fulfill@.pending =~= Seq::empty());
        assert(fulfill@.obligations =~= Seq::empty());
        assert(fulfill@.deferred =~= Seq::empty());
        assert(fulfill@.constraints =~= Seq::empty());
        fulfill
    }

    /// The obligations that are open, the next to be tried last.
    pub fn obligations(&self) -> (obligations: &Vec<Obligation>)
        ensures
            obligation_views(obligations@) == self@.obligations,
    {
        &self.obligations
    }

    /// The constraints met so far, in the order in which they were met.
    pub fn constraints(&self) -> (constraints: &Vec<InEnvironment<Constraint>>)
        ensures
            placed(constraints@) == self@.constraints,
    {
        &self.constraints
    }

    /// Whether a goal was met that can neither be proved nor refuted.
    pub fn cannot_prove(&self) -> (flag: bool)
        ensures
            flag == self@.cannot_prove,
    {
        self.cannot_prove
    }

    /// Adds each of `constraints` that is not held yet.
    pub(crate) fn absorb(&mut self, constraints: &Vec<InEnvironment<Constraint>>)
        ensures
            final(self)@ == (FulfillView {
                constraints: merge(old(self)@.constraints, placed(constraints@)),
                ..old(self)@
            }),
            old(self).wf() ==> final(self).wf(),
    {
        let mut i: usize = 0;
        assert(placed(constraints@).skip(0) == placed(constraints@));
        while i < constraints.len()
            invariant
                i <= constraints.len(),
                merge(self@.constraints, placed(constraints@).skip(i as int)) == merge(
                    old(self)@.constraints,
                    placed(constraints@),
                ),
                self@ == (FulfillView { constraints: self@.constraints, ..old(self)@ }),
            decreases constraints.len() - i,
        {
            let item = &constraints[i];
            assert(placed(constraints@).skip(i as int)[0] == item@);
            assert(placed(constraints@).skip(i as int).skip(1) == placed(constraints@).skip(i + 1));
            if !holds(&self.constraints, item) {
                let copy = InEnvironment::new(&item.environment, item.goal);
                proof {
                    lemma_placed_push(self.constraints@, copy);
                }
                self.constraints.push(copy);
            }
            i += 1;
        }
        proof {
            lemma_merge(old(self)@.constraints, placed(constraints@));
        }
    }

    /// Takes in what became of a unification.
    ///
    /// Where the terms were unified, the constraints that the inference
    /// table derived join those held, each once, and each goal that it
    /// derived is queued as an obligation to prove, under the environment it
    /// came with. Where they were not, the attempt has no solution and the
    /// context is left as it was.
    pub fn unify(&mut self, result: Result<UnificationResult, UnifyError>) -> (done: Result<(), NoSolution>)
        ensures
            done is Ok <==> result is Ok,
            result is Err ==> final(self)@ == old(self)@,
            result is Ok ==> final(self)@ == (FulfillView {
                obligations: old(self)@.obligations + derived(result->Ok_0.goals@),
                constraints: merge(old(self)@.constraints, placed(result->Ok_0.constraints@)),
                ..old(self)@
            }),
            old(self).wf() ==> final(self).wf(),
    {
        match result {
            Err(_) => Err(NoSolution),
            Ok(UnificationResult { goals, constraints }) => {
                self.absorb(&constraints);
                let ghost before = self@;
                let mut i: usize = 0;
                assert(before.obligations + derived(goals@).take(0) =~= before.obligations);
                while i < goals.len()
                    invariant
                        i <= goals.len(),
                        self@ == (FulfillView {
                            obligations: before.obligations + derived(goals@).take(i as int),
                            ..before
                        }),
                    decreases goals.len() - i,
                {
                    let item = &goals[i];
                    let goal = Goal::Leaf(LeafGoal::DomainGoal(item.goal));
                    let obligation = Obligation::Prove(InEnvironment::new(&item.environment, goal));
                    proof {
                        lemma_views_push(self.obligations@, obligation);
                        assert(obligation@ == derived(goals@)[i as int]);
                        assert(derived(goals@).take(i + 1) =~= derived(goals@).take(i as int).push(
                            derived(goals@)[i as int],
                        ));
                        assert(before.obligations + derived(goals@).take(i + 1) =~= (before.obligations + derived(
                            goals@,
                        ).take(i as int)).push(obligation@));
                    }
                    self.obligations.push(obligation);
                    i += 1;
                }
                assert(derived(goals@).take(i as int) =~= derived(goals@));
                Ok(())
            },
        }
    }
}

} // verus!
