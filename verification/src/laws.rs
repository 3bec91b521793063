//! What holds of decomposition and of the rounds whatever the goal.

use vstd::prelude::*;
use vstd::multiset::Multiset;
use vstd::seq_lib::{lemma_multiset_commutative, lemma_seq_union_to_multiset_commutative};
use crate::environment::merge;
use crate::fulfill::assembly::{assemble, AssemblyView};
use crate::fulfill::rounds::{bindings, refutation, resolved, turn, StepView};
use crate::fulfill::FulfillView;
use crate::goal::{Goal, InferenceVar, ProgramClause, Term};
use crate::obligation::{settle, unfold, Atom, ObligationView};
use crate::solution::{Guidance, NegativeSolution, NoSolution, Outcome, Solution, Substitution};

verus! {

/// A conjunction decomposes into the same atoms whichever side comes
/// first: only their order differs.
pub proof fn lemma_conjunction_commutes(environment: Seq<ProgramClause>, left: Goal, right: Goal)
    ensures
        unfold(environment, Goal::And(Box::new(left), Box::new(right))).to_multiset() == unfold(
            environment,
            Goal::And(Box::new(right), Box::new(left)),
        ).to_multiset(),
{
    lemma_seq_union_to_multiset_commutative(unfold(environment, left), unfold(environment, right));
}

/// A conjunction decomposes as its sides do, each side alone, whatever
/// the sides are and however they are nested.
pub proof fn lemma_conjunction_associates(environment: Seq<ProgramClause>, a: Goal, b: Goal, c: Goal)
    ensures
        unfold(environment, Goal::And(Box::new(Goal::And(Box::new(a), Box::new(b))), Box::new(c))) == unfold(
            environment,
            Goal::And(Box::new(a), Box::new(Goal::And(Box::new(b), Box::new(c)))),
        ),
{
    let ua = unfold(environment, a);
    let ub = unfold(environment, b);
    let uc = unfold(environment, c);
    assert(unfold(environment, Goal::And(Box::new(a), Box::new(b))) == ua + ub);
    assert(unfold(environment, Goal::And(Box::new(b), Box::new(c))) == ub + uc);
    assert((ua + ub) + uc =~= ua + (ub + uc));
}

/// The clauses of an implication are in scope for its body and for nothing
/// else: a goal beside the implication is decomposed under the environment
/// as it was.
pub proof fn lemma_implication_is_scoped(
    environment: Seq<ProgramClause>,
    clauses: Vec<ProgramClause>,
    body: Goal,
    sibling: Goal,
)
    ensures
        unfold(environment, Goal::Implies(clauses, Box::new(body))) == unfold(merge(environment, clauses@), body),
        unfold(
            environment,
            Goal::And(Box::new(Goal::Implies(clauses, Box::new(body))), Box::new(sibling)),
        ) == unfold(merge(environment, clauses@), body) + unfold(environment, sibling),
        unfold(
            environment,
            Goal::And(Box::new(sibling), Box::new(Goal::Implies(clauses, Box::new(body)))),
        ) == unfold(environment, sibling) + unfold(merge(environment, clauses@), body),
{
    assert(unfold(environment, Goal::Implies(clauses, Box::new(body))) == unfold(
        merge(environment, clauses@),
        body,
    ));
}

/// A negation is one obligation to refute, under the environment of the
/// negation: decomposition does not enter it.
pub proof fn lemma_negation_is_opaque(environment: Seq<ProgramClause>, body: Goal)
    ensures
        unfold(environment, Goal::Not(Box::new(body))) == seq![
            Atom::Obligation(ObligationView::Refute(environment, body)),
        ],
{
}

/// A goal that could not be inverted is never counted as refuted, and the
/// attempt does not fail on it: its obligation stays ambiguous. Only a goal
/// that was inverted and handed to the solver can come out refuted.
pub proof fn lemma_negation_safety(attempt: Option<Result<Solution, NoSolution>>)
    ensures
        attempt is None ==> refutation(attempt) == Ok::<NegativeSolution, NoSolution>(NegativeSolution::Ambiguous),
        refutation(attempt) == Ok::<NegativeSolution, NoSolution>(NegativeSolution::Refuted) ==> attempt is Some
            && attempt->0 is Err,
        refutation(attempt) is Err ==> attempt is Some && attempt->0 is Ok && attempt->0->Ok_0 is Unique,
{
}

/// What becomes of an obligation when it is tried.
pub struct Verdict {
    /// Whether the obligation stays open.
    pub ambiguous: bool,
    /// Whether a substitution is applied for it.
    pub binds: bool,
}

/// The state at the end of a round in which what becomes of an obligation
/// depends on the obligation alone, and no obligation brings forth another.
pub open spec fn round(state: FulfillView, verdicts: spec_fn(ObligationView) -> Verdict) -> FulfillView
    decreases state.obligations.len(),
{
    if state.obligations.len() == 0 {
        state
    } else {
        let tried = state.obligations.last();
        let verdict = verdicts(tried);
        round(resolved(turn(state).0, tried, verdict.ambiguous, verdict.binds), verdicts)
    }
}

/// Whether some obligation among `obligations` has a substitution applied.
pub open spec fn some_binds(obligations: Multiset<ObligationView>, verdicts: spec_fn(ObligationView) -> Verdict) -> bool {
    exists|obligation: ObligationView| obligations.count(obligation) > 0 && verdicts(obligation).binds
}

/// At the end of such a round every obligation was tried, those that were
/// ambiguous are kept, each as often as it was open, and the round has made
/// progress if a substitution was applied for one of them.
pub proof fn lemma_round(state: FulfillView, verdicts: spec_fn(ObligationView) -> Verdict)
    ensures
        round(state, verdicts).obligations.len() == 0,
        round(state, verdicts).deferred.to_multiset() == state.deferred.to_multiset().add(
            state.obligations.to_multiset().filter(|obligation: ObligationView| verdicts(obligation).ambiguous),
        ),
        round(state, verdicts).progress == (state.progress || some_binds(
            state.obligations.to_multiset(),
            verdicts,
        )),
        round(state, verdicts).constraints == state.constraints,
        round(state, verdicts).cannot_prove == state.cannot_prove,
        round(state, verdicts).pending == state.pending,
    decreases state.obligations.len(),
{
    broadcast use vstd::multiset::group_multiset_axioms;
    broadcast use vstd::seq_lib::group_to_multiset_ensures;

    let keep = |obligation: ObligationView| verdicts(obligation).ambiguous;
    if state.obligations.len() == 0 {
        assert(state.obligations.to_multiset().filter(keep) =~= Multiset::empty());
        assert(state.deferred.to_multiset().add(Multiset::empty()) =~= state.deferred.to_multiset());
        assert(!some_binds(state.obligations.to_multiset(), verdicts));
    } else {
        let tried = state.obligations.last();
        let verdict = verdicts(tried);
        let below = state.obligations.drop_last();
        let next = resolved(turn(state).0, tried, verdict.ambiguous, verdict.binds);
        assert(next.obligations == below);
        lemma_round(next, verdicts);
        assert(state.obligations =~= below.push(tried));
        assert(state.obligations.to_multiset() =~= below.to_multiset().insert(tried));
        assert(state.obligations.to_multiset().filter(keep) =~= if verdict.ambiguous {
            below.to_multiset().filter(keep).insert(tried)
        } else {
            below.to_multiset().filter(keep)
        });
        assert(next.deferred.to_multiset() =~= if verdict.ambiguous {
            state.deferred.to_multiset().insert(tried)
        } else {
            state.deferred.to_multiset()
        });
        assert(round(state, verdicts).deferred.to_multiset() =~= state.deferred.to_multiset().add(
            state.obligations.to_multiset().filter(keep),
        ));
        if some_binds(below.to_multiset(), verdicts) {
            let witness = choose|obligation: ObligationView|
                below.to_multiset().count(obligation) > 0 && verdicts(obligation).binds;
            assert(state.obligations.to_multiset().count(witness) > 0);
        }
        if verdict.binds {
            assert(state.obligations.to_multiset().count(tried) > 0);
        }
        if some_binds(state.obligations.to_multiset(), verdicts) {
            let witness = choose|obligation: ObligationView|
                state.obligations.to_multiset().count(obligation) > 0 && verdicts(obligation).binds;
            if witness != tried {
                assert(below.to_multiset().count(witness) > 0);
            }
        }
    }
}

/// The order in which a round tries its obligations does not matter to
/// what it leaves, where what becomes of an obligation depends on the
/// obligation alone: two rounds over the same obligations in different
/// orders keep the same obligations open, agree on whether progress was
/// made, and so agree on whether the rounds end there and how.
pub proof fn lemma_round_order(first: FulfillView, second: FulfillView, verdicts: spec_fn(ObligationView) -> Verdict)
    requires
        first.obligations.to_multiset() == second.obligations.to_multiset(),
        first.deferred.to_multiset() == second.deferred.to_multiset(),
        first.progress == second.progress,
    ensures
        round(first, verdicts).deferred.to_multiset() == round(second, verdicts).deferred.to_multiset(),
        round(first, verdicts).progress == round(second, verdicts).progress,
        turn(round(first, verdicts)).1 is Halt <==> turn(round(second, verdicts)).1 is Halt,
        turn(round(first, verdicts)).1 is Halt ==> turn(round(first, verdicts)).1 == turn(
            round(second, verdicts),
        ).1,
{
    broadcast use vstd::seq_lib::group_to_multiset_ensures;

    lemma_round(first, verdicts);
    lemma_round(second, verdicts);
    let a = round(first, verdicts);
    let b = round(second, verdicts);
    assert(a.deferred.len() == a.deferred.to_multiset().len());
    assert(b.deferred.len() == b.deferred.to_multiset().len());
}

/// The rounds end completely exactly when no obligation is open, and
/// when they end, the obligations that stayed ambiguous are the open ones.
pub proof fn lemma_halt(state: FulfillView)
    ensures
        turn(state).1 == StepView::Halt(Outcome::Complete) <==> state.obligations.len() == 0
            && state.deferred.len() == 0,
        turn(state).1 is Halt ==> turn(state).0.obligations == state.deferred && turn(state).0.deferred.len() == 0,
        turn(state).1 == StepView::Halt(Outcome::Incomplete) ==> !state.progress,
{
}

/// Whether none of `atoms` needs the inference table.
pub open spec fn plain(atoms: Seq<Atom>) -> bool {
    forall|i: int| 0 <= i < atoms.len() ==> (#[trigger] atoms[i]) is Obligation || atoms[i] is CannotProve
}

/// Atoms of which none needs the inference table are gone through to the
/// end: every obligation among them is queued, as often as it occurs, and
/// the flag is raised if the goal that cannot be proved is among them. In
/// what order they come makes no difference to that.
pub proof fn lemma_settle_plain(obligations: Seq<ObligationView>, cannot_prove: bool, atoms: Seq<Atom>)
    requires
        plain(atoms),
    ensures
        settle(obligations, cannot_prove, atoms).request is None,
        settle(obligations, cannot_prove, atoms).rest.len() == 0,
        forall|obligation: ObligationView| #[trigger]
            settle(obligations, cannot_prove, atoms).obligations.to_multiset().count(obligation)
                == obligations.to_multiset().count(obligation) + atoms.to_multiset().count(
                Atom::Obligation(obligation),
            ),
        settle(obligations, cannot_prove, atoms).cannot_prove == (cannot_prove || atoms.to_multiset().count(
            Atom::CannotProve,
        ) > 0),
    decreases atoms.len(),
{
    broadcast use vstd::multiset::group_multiset_axioms;
    broadcast use vstd::seq_lib::group_to_multiset_ensures;

    if atoms.len() == 0 {
        assert(atoms.to_multiset().len() == 0);
        assert forall|atom: Atom| atoms.to_multiset().count(atom) == 0 by {
            if atoms.to_multiset().count(atom) > 0 {
                assert(atoms.contains(atom));
            }
        }
    } else {
        let first = atoms[0];
        let rest = atoms.skip(1);
        assert(first is Obligation || first is CannotProve);
        assert(plain(rest)) by {
            assert forall|i: int| 0 <= i < rest.len() implies (#[trigger] rest[i]) is Obligation
                || rest[i] is CannotProve by {
                assert(rest[i] == atoms[i + 1]);
            }
        }
        assert(atoms =~= seq![first] + rest);
        lemma_multiset_commutative(seq![first], rest);
        assert(seq![first] =~= Seq::<Atom>::empty().push(first));
        assert(seq![first].to_multiset() =~= Multiset::<Atom>::empty().insert(first));
        assert(atoms.to_multiset() =~= rest.to_multiset().insert(first));
        match first {
            Atom::Obligation(queued) => {
                lemma_settle_plain(obligations.push(queued), cannot_prove, rest);
                assert(obligations.push(queued).to_multiset() =~= obligations.to_multiset().insert(queued));
            },
            _ => {
                lemma_settle_plain(obligations, true, rest);
            },
        }
    }
}

/// Order independence. Where neither side of a conjunction needs the
/// inference table, and what becomes of an obligation in a round depends on
/// the obligation alone, the side that is written first makes no
/// difference: either way the same obligations are queued, the flag is the
/// same, and a round over them keeps the same obligations open, agrees on
/// whether progress was made, and agrees on whether the rounds end there
/// and how.
pub proof fn lemma_conjunction_order(
    state: FulfillView,
    environment: Seq<ProgramClause>,
    left: Goal,
    right: Goal,
    verdicts: spec_fn(ObligationView) -> Verdict,
)
    requires
        plain(unfold(environment, left)),
        plain(unfold(environment, right)),
    ensures
        ({
            let one = settle(
                state.obligations,
                state.cannot_prove,
                unfold(environment, Goal::And(Box::new(left), Box::new(right))),
            );
            let other = settle(
                state.obligations,
                state.cannot_prove,
                unfold(environment, Goal::And(Box::new(right), Box::new(left))),
            );
            let first = round(
                FulfillView { obligations: one.obligations, cannot_prove: one.cannot_prove, ..state },
                verdicts,
            );
            let second = round(
                FulfillView { obligations: other.obligations, cannot_prove: other.cannot_prove, ..state },
                verdicts,
            );
            &&& one.request is None && other.request is None
            &&& one.obligations.to_multiset() == other.obligations.to_multiset()
            &&& one.cannot_prove == other.cannot_prove
            &&& first.deferred.to_multiset() == second.deferred.to_multiset()
            &&& first.progress == second.progress
            &&& first.cannot_prove == second.cannot_prove
            &&& first.constraints == second.constraints
            &&& turn(first).1 is Halt <==> turn(second).1 is Halt
            &&& turn(first).1 is Halt ==> turn(first).1 == turn(second).1
        }),
{
    broadcast use vstd::multiset::group_multiset_axioms;

    let forth = unfold(environment, left) + unfold(environment, right);
    let back = unfold(environment, right) + unfold(environment, left);
    assert(plain(forth));
    assert(plain(back));
    lemma_seq_union_to_multiset_commutative(unfold(environment, left), unfold(environment, right));
    lemma_settle_plain(state.obligations, state.cannot_prove, forth);
    lemma_settle_plain(state.obligations, state.cannot_prove, back);
    let one = settle(state.obligations, state.cannot_prove, forth);
    let other = settle(state.obligations, state.cannot_prove, back);
    assert(one.obligations.to_multiset() =~= other.obligations.to_multiset());
    lemma_round_order(
        FulfillView { obligations: one.obligations, cannot_prove: one.cannot_prove, ..state },
        FulfillView { obligations: other.obligations, cannot_prove: other.cannot_prove, ..state },
        verdicts,
    );
    lemma_round(FulfillView { obligations: one.obligations, cannot_prove: one.cannot_prove, ..state }, verdicts);
    lemma_round(FulfillView { obligations: other.obligations, cannot_prove: other.cannot_prove, ..state }, verdicts);
}

/// An attempt in which no goal was met that cannot be proved, and whose
/// rounds end with no obligation open, has a unique answer: the
/// substitution of the attempt with the constraints that were met. It is
/// never ambiguous.
pub proof fn lemma_complete_attempt_is_unique(state: FulfillView, subst: Substitution)
    requires
        !state.cannot_prove,
        turn(state).1 == StepView::Halt(Outcome::Complete),
    ensures
        assemble(turn(state).0, Outcome::Complete, subst) == AssemblyView::Unique(subst, state.constraints),
{
}

/// A goal that cannot be proved overrules whatever else was learned: the
/// answer is ambiguous and nothing is known, however the rounds ended.
pub proof fn lemma_cannot_prove_overrules(state: FulfillView, outcome: Outcome, subst: Substitution)
    requires
        state.cannot_prove,
    ensures
        assemble(state, outcome, subst) == AssemblyView::Answer(Solution::Ambig(Guidance::Unknown)),
{
}

/// Only an attempt whose rounds ended completely has a unique answer, and
/// an assembly gives no answer by itself but the one of which nothing is
/// known.
pub proof fn lemma_unique_needs_completion(state: FulfillView, outcome: Outcome, subst: Substitution)
    ensures
        assemble(state, outcome, subst) is Unique <==> !state.cannot_prove && outcome == Outcome::Complete,
        assemble(state, outcome, subst) is Answer ==> assemble(state, outcome, subst) == AssemblyView::Answer(
            Solution::Ambig(Guidance::Unknown),
        ),
{
}

/// The terms that stand for the variables `free_vars`, in order.
pub open spec fn variables(free_vars: Seq<InferenceVar>) -> Seq<Term> {
    free_vars.map_values(|variable: InferenceVar| Term::Var(variable))
}

/// A substitution that carries each free variable to itself pairs every
/// variable with itself: applying it binds nothing.
pub proof fn lemma_identity_bindings(free_vars: Seq<InferenceVar>)
    ensures
        bindings(free_vars, variables(free_vars)).len() == free_vars.len(),
        forall|i: int|
            0 <= i < free_vars.len() ==> #[trigger] bindings(free_vars, variables(free_vars))[i] == (
                Term::Var(free_vars[i]),
                Term::Var(free_vars[i]),
            ),
{
}

} // verus!
