//! The rounds: obligations are tried until a round learns nothing.

use vstd::prelude::*;
use crate::environment::{merge, InEnvironment};
use crate::fulfill::{lemma_views_drop_last, lemma_views_push, Fulfill, FulfillView};
use crate::goal::{Goal, InferenceVar, Term};
use crate::obligation::{placed, Obligation, ObligationView};
use crate::solution::{
    Application, ConstrainedSubst, NegativeSolution, NoSolution, Outcome, PositiveSolution, Solution,
};

verus! {

/// What a round does next.
#[derive(Debug, PartialEq, Eq)]
pub enum Step {
    /// Try this obligation, and hand in what came of it.
    Attempt(Obligation),
    /// The rounds have ended.
    Halt(Outcome),
}

pub enum StepView {
    Attempt(ObligationView),
    Halt(Outcome),
}

impl View for Step {
    type V = StepView;

    open spec fn view(&self) -> StepView {
        match *self {
            Step::Attempt(obligation) => StepView::Attempt(obligation@),
            Step::Halt(outcome) => StepView::Halt(outcome),
        }
    }
}

/// One turn of the rounds: the state after it, and what it asks for.
///
/// While the round has obligations left, the last is taken and tried. When it
/// has none left, the round is over, and the obligations that it found
/// ambiguous are the open ones again. If the round applied a substitution,
/// another begins at once; if not, the rounds end: completely if no
/// obligation is open, else incompletely.
pub open spec fn turn(state: FulfillView) -> (FulfillView, StepView) {
    if state.obligations.len() > 0 {
        (
            FulfillView { obligations: state.obligations.drop_last(), ..state },
            StepView::Attempt(state.obligations.last()),
        )
    } else if state.progress && state.deferred.len() > 0 {
        (
            FulfillView {
                obligations: state.deferred.drop_last(),
                deferred: Seq::empty(),
                progress: false,
                ..state
            },
            StepView::Attempt(state.deferred.last()),
        )
    } else {
        (
            FulfillView { obligations: state.deferred, deferred: Seq::empty(), progress: false, ..state },
            StepView::Halt(
                if state.deferred.len() == 0 {
                    Outcome::Complete
                } else {
                    Outcome::Incomplete
                },
            ),
        )
    }
}

/// The state once an obligation that was handed out is dealt with: where
/// it stayed ambiguous it is kept for the next round, and where a
/// substitution is to be applied for it, the round has made progress.
pub open spec fn resolved(state: FulfillView, obligation: ObligationView, ambiguous: bool, binds: bool) -> FulfillView {
    FulfillView {
        deferred: if ambiguous {
            state.deferred.push(obligation)
        } else {
            state.deferred
        },
        progress: state.progress || binds,
        ..state
    }
}

/// What an attempt to refute a goal comes to.
///
/// `attempt` is none where the goal could not be inverted, because it is not
/// ground; else it is what the solver made of the inverted goal. A goal
/// that cannot be inverted is never counted as refuted: the verdict is
/// ambiguous. A unique solution of the inverted goal falsifies the whole
/// attempt. An ambiguous one leaves the verdict ambiguous. Where the
/// inverted goal has no solution, the refutation stands.
pub open spec fn refutation(attempt: Option<Result<Solution, NoSolution>>) -> Result<
    NegativeSolution,
    NoSolution,
> {
    match attempt {
        None => Ok(NegativeSolution::Ambiguous),
        Some(Ok(solution)) => if solution is Unique {
            Err(NoSolution)
        } else {
            Ok(NegativeSolution::Ambiguous)
        },
        Some(Err(_)) => Ok(NegativeSolution::Refuted),
    }
}

/// The pairs of terms that carry a substitution over: each free variable
/// with the parameter at its position.
pub open spec fn bindings(free_vars: Seq<InferenceVar>, parameters: Seq<Term>) -> Seq<(Term, Term)>
    recommends
        free_vars.len() <= parameters.len(),
{
    Seq::new(free_vars.len(), |i: int| (Term::Var(free_vars[i]), parameters[i]))
}

impl Fulfill {
    /// Takes the next turn of the rounds, as `turn` describes it.
    ///
    /// Each round tries every obligation that is open once. An obligation
    /// that is handed out is no longer held: `prove` and `refute` put it
    /// back where it stayed ambiguous.
    pub fn fulfill(&mut self) -> (step: Step)
        ensures
            final(self)@ == turn(old(self)@).0,
            step@ == turn(old(self)@).1,
            old(self).wf() ==> final(self).wf(),
    {
        proof {
            if self.obligations@.len() > 0 {
                lemma_views_drop_last(self.obligations@);
            }
            if self.deferred@.len() > 0 {
                lemma_views_drop_last(self.deferred@);
            }
        }
        if let Some(obligation) = self.obligations.pop() {
            return Step::Attempt(obligation);
        }
        let mut requeued: Vec<Obligation> = Vec::new();
        std::mem::swap(&mut self.deferred, &mut requeued);
        self.obligations = requeued;
        let again = self.progress;
        self.progress = false;
        assert(self@.deferred =~= Seq::empty());
        if again {
            if let Some(obligation) = self.obligations.pop() {
                return Step::Attempt(obligation);
            }
        }
        if self.obligations.len() == 0 {
            Step::Halt(Outcome::Complete)
        } else {
            Step::Halt(Outcome::Incomplete)
        }
    }

    /// Takes in what the solver made of the obligation to prove `goal`.
    ///
    /// Where the solver found no solution, the whole attempt has none:
    /// the error is handed on and the context is left as it was. Where the
    /// solution is ambiguous, the obligation stays open for the next round;
    /// else it is discharged. Where the solution binds (it is unique, or its
    /// guidance is definite), its substitution is handed back to be
    /// applied, and the round has made progress.
    pub fn prove(&mut self, goal: InEnvironment<Goal>, answer: Result<PositiveSolution, NoSolution>) -> (application:
        Result<Option<Application>, NoSolution>)
        ensures
            application is Err <==> answer is Err,
            answer is Err ==> final(self)@ == old(self)@,
            answer is Ok ==> {
                let positive = answer->Ok_0;
                let application = application->Ok_0;
                &&& final(self)@ == resolved(
                    old(self)@,
                    ObligationView::Prove(goal@.0, goal@.1),
                    positive.solution is Ambig,
                    positive.solution.definite(),
                )
                &&& application is Some <==> positive.solution.definite()
                &&& application is Some ==> {
                    &&& application->0.free_vars == positive.free_vars
                    &&& application->0.universes == positive.universes
                    &&& positive.solution.carries(application->0.subst)
                }
            },
            old(self).wf() ==> final(self).wf(),
    {
        let PositiveSolution { free_vars, universes, solution } = match answer {
            Ok(positive) => positive,
            Err(_) => {
                return Err(NoSolution);
            },
        };
        if solution.is_ambig() {
            let obligation = Obligation::Prove(goal);
            proof {
                lemma_views_push(self.deferred@, obligation);
            }
            self.deferred.push(obligation);
        }
        if solution.has_definite() {
            match solution.constrained_subst() {
                Some(subst) => {
                    self.progress = true;
                    Ok(Some(Application { free_vars, universes, subst }))
                },
                None => Ok(None),
            }
        } else {
            Ok(None)
        }
    }

    /// Takes in what came of the attempt to refute `goal`, and gives the
    /// verdict that `refutation` describes.
    ///
    /// Where the verdict is ambiguous, the obligation stays open for the
    /// next round. A refutation binds nothing, so it is no progress.
    pub fn refute(&mut self, goal: InEnvironment<Goal>, attempt: Option<Result<Solution, NoSolution>>) -> (answer:
        Result<NegativeSolution, NoSolution>)
        ensures
            answer == refutation(attempt),
            attempt is None ==> answer == Ok::<NegativeSolution, NoSolution>(NegativeSolution::Ambiguous),
            final(self)@ == resolved(
                old(self)@,
                ObligationView::Refute(goal@.0, goal@.1),
                answer == Ok::<NegativeSolution, NoSolution>(NegativeSolution::Ambiguous),
                false,
            ),
            old(self).wf() ==> final(self).wf(),
    {
        let verdict = match attempt {
            None => NegativeSolution::Ambiguous,
            Some(Ok(solution)) => {
                if solution.is_unique() {
                    return Err(NoSolution);
                }
                NegativeSolution::Ambiguous
            },
            Some(Err(_)) => NegativeSolution::Refuted,
        };
        if verdict == NegativeSolution::Ambiguous {
            let obligation = Obligation::Refute(goal);
            proof {
                lemma_views_push(self.deferred@, obligation);
            }
            self.deferred.push(obligation);
        }
        Ok(verdict)
    }

    /// Takes in a substitution that was found for an obligation, once it is
    /// carried over into this context.
    ///
    /// Its constraints join those held, each once. What comes back are the
    /// pairs to unify, in order: each free variable of the obligation with
    /// the parameter at its position.
    pub fn apply_solution(&mut self, free_vars: Vec<InferenceVar>, subst: ConstrainedSubst) -> (pairs: Vec<
        (Term, Term),
    >)
        requires
            free_vars@.len() <= subst.subst.parameters@.len(),
        ensures
            final(self)@ == (FulfillView {
                constraints: merge(old(self)@.constraints, placed(subst.constraints@)),
                ..old(self)@
            }),
            pairs@ == bindings(free_vars@, subst.subst.parameters@),
            old(self).wf() ==> final(self).wf(),
    {
        self.absorb(&subst.constraints);
        let mut pairs: Vec<(Term, Term)> = Vec::new();
        let mut i: usize = 0;
        while i < free_vars.len()
            invariant
                i <= free_vars.len(),
                free_vars@.len() <= subst.subst.parameters@.len(),
                pairs@.len() == i,
                forall|k: int| 0 <= k < i ==> pairs@[k] == (Term::Var(free_vars@[k]), subst.subst.parameters@[k]),
            decreases free_vars.len() - i,
        {
            pairs.push((free_vars[i].to_parameter(), subst.subst.parameters[i]));
            i += 1;
        }
        assert(pairs@ =~= bindings(free_vars@, subst.subst.parameters@));
        pairs
    }
}

} // verus!
