//! Assembly: from the end of the rounds to the answer.

use vstd::prelude::*;
use crate::environment::InEnvironment;
use crate::fulfill::{lemma_views_drop_last, Fulfill, FulfillView};
use crate::goal::{Constraint, Goal, ProgramClause};
use crate::obligation::{placed, Obligation, ObligationView};
use crate::solution::{
    Application, ConstrainedSubst, Guidance, Outcome, PositiveSolution, Solution, Substitution,
};

verus! {

/// How the answer of an attempt is put together once the rounds have ended.
#[derive(Debug, PartialEq, Eq)]
pub enum Assembly {
    /// This is the answer.
    Answer(Solution),
    /// The goals are solved, and the state of inference is the one way to
    /// solve them: the canonical form of this value, substitution and
    /// constraints taken together, is the unique answer.
    Unique(ConstrainedSubst),
    /// Obligations stayed open. What can be said depends on whether this
    /// substitution is trivial in the inference table: see `guide`.
    Incomplete(Substitution),
}

/// An assembly as contracts speak of it.
pub enum AssemblyView {
    Answer(Solution),
    Unique(Substitution, Seq<(Seq<ProgramClause>, Constraint)>),
    Incomplete(Substitution),
}

impl View for Assembly {
    type V = AssemblyView;

    open spec fn view(&self) -> AssemblyView {
        match *self {
            Assembly::Answer(solution) => AssemblyView::Answer(solution),
            Assembly::Unique(value) => AssemblyView::Unique(value.subst, placed(value.constraints@)),
            Assembly::Incomplete(subst) => AssemblyView::Incomplete(subst),
        }
    }
}

/// How the answer is put together, from the state in which the rounds
/// ended, how they ended, and the substitution made for the goal of the
/// attempt when it began.
///
/// A goal that cannot be proved overrules everything else: the answer is
/// ambiguous and nothing is known. Else, where the rounds ended completely,
/// the answer is unique: the substitution with the constraints that were
/// met. Else obligations stayed open.
pub open spec fn assemble(state: FulfillView, outcome: Outcome, subst: Substitution) -> AssemblyView {
    if state.cannot_prove {
        AssemblyView::Answer(Solution::Ambig(Guidance::Unknown))
    } else if outcome == Outcome::Complete {
        AssemblyView::Unique(subst, state.constraints)
    } else {
        AssemblyView::Incomplete(subst)
    }
}

/// What an attempt that stayed incomplete can still say.
#[derive(Debug, PartialEq, Eq)]
pub enum Guide {
    /// The shape of the substitution is forced: its canonical form is the
    /// definite guidance of an ambiguous answer.
    Definite(Substitution),
    /// Nothing is forced. The open obligations are gone through for a
    /// suggestion: see `candidate`.
    Suggest(Substitution),
}

/// The index of the last obligation to prove among `obligations`, or -1.
pub open spec fn last_prove(obligations: Seq<ObligationView>) -> int
    decreases obligations.len(),
{
    if obligations.len() == 0 {
        -1
    } else if obligations.last() is Prove {
        obligations.len() - 1
    } else {
        last_prove(obligations.drop_last())
    }
}

/// `last_prove` finds an obligation to prove with only refutations behind
/// it, or finds that there are only refutations.
pub proof fn lemma_last_prove(obligations: Seq<ObligationView>)
    ensures
        -1 <= last_prove(obligations) < obligations.len(),
        last_prove(obligations) >= 0 ==> obligations[last_prove(obligations)] is Prove,
        forall|k: int| last_prove(obligations) < k < obligations.len() ==> obligations[k] is Refute,
    decreases obligations.len(),
{
    if obligations.len() > 0 && !(obligations.last() is Prove) {
        let below = obligations.drop_last();
        lemma_last_prove(below);
        assert forall|k: int| last_prove(obligations) < k < obligations.len() implies obligations[k] is Refute by {
            if k < below.len() {
                assert(below[k] == obligations[k]);
            }
        }
    }
}

impl Fulfill {
    /// Decides how the answer is put together, as `assemble` describes it.
    /// `subst` is the substitution that was made for the goal of the attempt
    /// when it began. Where the answer is unique, the constraints leave the
    /// context with it.
    pub fn solve(&mut self, outcome: Outcome, subst: Substitution) -> (assembly: Assembly)
        ensures
            assembly@ == assemble(old(self)@, outcome, subst),
            final(self)@ == (FulfillView {
                constraints: if assembly is Unique {
                    Seq::empty()
                } else {
                    old(self)@.constraints
                },
                ..old(self)@
            }),
            old(self).wf() ==> final(self).wf(),
    {
        if self.cannot_prove {
            return Assembly::Answer(Solution::Ambig(Guidance::Unknown));
        }
        if outcome.is_complete() {
            let mut constraints: Vec<InEnvironment<Constraint>> = Vec::new();
            std::mem::swap(&mut self.constraints, &mut constraints);
            assert(self@.constraints =~= Seq::empty());
            return Assembly::Unique(ConstrainedSubst { subst, constraints });
        }
        Assembly::Incomplete(subst)
    }

    /// Decides what an incomplete attempt can say, from whether its
    /// substitution is trivial in the inference table.
    ///
    /// A substitution that is not trivial has a shape that was forced, and
    /// that much is definite. A trivial one says nothing: then a suggestion
    /// is looked for.
    pub fn guide(subst: Substitution, trivial: bool) -> (guide: Guide)
        ensures
            guide == if trivial {
                Guide::Suggest(subst)
            } else {
                Guide::Definite(subst)
            },
    {
        if trivial {
            Guide::Suggest(subst)
        } else {
            Guide::Definite(subst)
        }
    }

    /// Hands out the next open obligation to prove, for a suggestion to be
    /// drawn from it. The obligations are gone through from the last, and
    /// those gone through are dropped: refutations suggest nothing.
    ///
    /// The obligation is to be solved once more. Where `suggest` finds a
    /// substitution in its solution, the answer is ambiguous with that
    /// suggestion; where no obligation is left to hand out, nothing is
    /// known.
    pub fn candidate(&mut self) -> (goal: Option<InEnvironment<Goal>>)
        ensures
            ({
                let at = last_prove(old(self)@.obligations);
                &&& goal is Some <==> at >= 0
                &&& goal is Some ==> ObligationView::Prove(goal->0@.0, goal->0@.1) == old(self)@.obligations[at]
                &&& final(self)@ == (FulfillView {
                    obligations: if at >= 0 {
                        old(self)@.obligations.take(at)
                    } else {
                        Seq::empty()
                    },
                    ..old(self)@
                })
            }),
            old(self).wf() ==> final(self).wf(),
    {
        loop
            invariant
                last_prove(self@.obligations) == last_prove(old(self)@.obligations),
                self@.obligations.len() <= old(self)@.obligations.len(),
                self@.obligations == old(self)@.obligations.take(self@.obligations.len() as int),
                self@ == (FulfillView { obligations: self@.obligations, ..old(self)@ }),
            decreases self@.obligations.len(),
        {
            let ghost open = self@.obligations;
            proof {
                lemma_last_prove(open);
                if self.obligations@.len() > 0 {
                    lemma_views_drop_last(self.obligations@);
                }
            }
            match self.obligations.pop() {
                None => {
                    assert(open =~= Seq::empty());
                    return None;
                },
                Some(Obligation::Prove(goal)) => {
                    assert(open.drop_last() =~= old(self)@.obligations.take(last_prove(old(self)@.obligations)));
                    return Some(goal);
                },
                Some(Obligation::Refute(_)) => {
                    assert(open.drop_last() =~= old(self)@.obligations.take(open.len() - 1));
                },
            }
        }
    }

    /// The substitution to apply as a suggestion, from the solution found
    /// once more for a candidate: the one that the solution carries,
    /// binding or not.
    pub fn suggest(positive: PositiveSolution) -> (application: Option<Application>)
        ensures
            application is Some <==> positive.solution.concrete(),
            application is Some ==> {
                &&& application->0.free_vars == positive.free_vars
                &&& application->0.universes == positive.universes
                &&& positive.solution.carries(application->0.subst)
            },
    {
        let PositiveSolution { free_vars, universes, solution } = positive;
        match solution.constrained_subst() {
            Some(subst) => Some(Application { free_vars, universes, subst }),
            None => None,
        }
    }
}

} // verus!
