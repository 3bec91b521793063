//! Whole proof attempts, run against a small inference table and a solver
//! that answers from a script.

use fulfillment::environment::{Environment, InEnvironment};
use fulfillment::fulfill::assembly::{Assembly, Guide};
use fulfillment::fulfill::rounds::Step;
use fulfillment::fulfill::Fulfill;
use fulfillment::goal::{
    Binders, Constraint, DomainGoal, EqGoal, Goal, InferenceVar, LeafGoal, ParameterKind,
    ProgramClause, QuantifierKind, Term,
};
use fulfillment::obligation::{Obligation, Request};
use fulfillment::solution::{
    Application, Canonical, CanonicalBinder, ConstrainedSubst, Guidance, NoSolution, Outcome,
    PositiveSolution, Solution, Substitution, UnificationResult, UnifyError, UniverseMap,
};

/// An inference table over terms without structure: a variable is free or
/// bound to a term, and two terms unify if they are the same or one of them
/// is a free variable.
struct Table {
    bound: Vec<(InferenceVar, Term)>,
    fresh: u32,
}

impl Table {
    fn new() -> Table {
        Table { bound: vec![], fresh: 100 }
    }

    fn resolve(&self, term: Term) -> Term {
        let mut term = term;
        while let Term::Var(variable) = term {
            match self.bound.iter().find(|(bound, _)| *bound == variable) {
                Some((_, value)) => term = *value,
                None => break,
            }
        }
        term
    }

    fn unify(&mut self, a: Term, b: Term) -> Result<UnificationResult, UnifyError> {
        let (a, b) = (self.resolve(a), self.resolve(b));
        if a != b {
            match (a, b) {
                (Term::Var(variable), value) | (value, Term::Var(variable)) => self.bound.push((variable, value)),
                _ => return Err(UnifyError),
            }
        }
        Ok(UnificationResult { goals: vec![], constraints: vec![] })
    }

    fn is_trivial(&self, subst: &Substitution) -> bool {
        subst.parameters.iter().all(|term| matches!(self.resolve(*term), Term::Var(_)))
    }

    fn canonical_terms(&self, terms: &[Term]) -> (Vec<Term>, Vec<CanonicalBinder>) {
        let mut free: Vec<InferenceVar> = vec![];
        let mut out = vec![];
        for term in terms {
            out.push(match self.resolve(*term) {
                Term::Var(variable) => {
                    if !free.contains(&variable) {
                        free.push(variable);
                    }
                    Term::Bound(free.iter().position(|other| *other == variable).unwrap() as u32)
                }
                other => other,
            });
        }
        let binders = free.iter().map(|_| CanonicalBinder { kind: ParameterKind::Ty, universe: 0 }).collect();
        (out, binders)
    }

    fn canonicalize(&self, subst: &Substitution) -> Canonical<Substitution> {
        let (parameters, binders) = self.canonical_terms(&subst.parameters);
        Canonical { value: Substitution { parameters }, binders }
    }

    fn canonicalize_constrained(&self, value: ConstrainedSubst) -> Canonical<ConstrainedSubst> {
        let (parameters, binders) = self.canonical_terms(&value.subst.parameters);
        Canonical {
            value: ConstrainedSubst { subst: Substitution { parameters }, constraints: value.constraints },
            binders,
        }
    }

    fn instantiate(&mut self, canonical: Canonical<ConstrainedSubst>) -> ConstrainedSubst {
        let base = self.fresh;
        self.fresh += canonical.binders.len() as u32;
        let parameters = canonical
            .value
            .subst
            .parameters
            .iter()
            .map(|term| match term {
                Term::Bound(position) => Term::Var(InferenceVar { index: base + position }),
                other => *other,
            })
            .collect();
        ConstrainedSubst { subst: Substitution { parameters }, constraints: canonical.value.constraints }
    }
}

type Solver<'a> = &'a mut dyn FnMut(&InEnvironment<Goal>, &Table) -> Result<PositiveSolution, NoSolution>;
type Inverter<'a> = &'a mut dyn FnMut(&InEnvironment<Goal>, &Table) -> Option<Result<Solution, NoSolution>>;

fn decompose(fulfill: &mut Fulfill, table: &mut Table, environment: &Environment, goal: Goal) -> Result<(), NoSolution> {
    let mut request = fulfill.push_goal(environment, goal);
    while let Some(pending) = request {
        request = match pending {
            Request::Instantiate(_, environment, binders) => fulfill.push_goal(&environment, *binders.value),
            Request::Unify(_, a, b) => {
                fulfill.unify(table.unify(a, b))?;
                fulfill.resume()
            }
        };
    }
    Ok(())
}

fn apply(fulfill: &mut Fulfill, table: &mut Table, application: Application) {
    let local = table.instantiate(application.subst);
    assert!(application.free_vars.len() <= local.subst.parameters.len());
    for (variable, value) in fulfill.apply_solution(application.free_vars, local) {
        let unified = table.unify(variable, value);
        assert!(fulfill.unify(unified).is_ok(), "a solved substitution applies");
    }
}

fn rounds(fulfill: &mut Fulfill, table: &mut Table, solver: Solver, inverter: Inverter) -> Result<Outcome, NoSolution> {
    loop {
        match fulfill.fulfill() {
            Step::Attempt(Obligation::Prove(goal)) => {
                let answer = solver(&goal, table);
                if let Some(application) = fulfill.prove(goal, answer)? {
                    apply(fulfill, table, application);
                }
            }
            Step::Attempt(Obligation::Refute(goal)) => {
                let attempt = inverter(&goal, table);
                fulfill.refute(goal, attempt)?;
            }
            Step::Halt(outcome) => return Ok(outcome),
        }
    }
}

fn answer(fulfill: &mut Fulfill, table: &mut Table, solver: Solver, outcome: Outcome, subst: Substitution) -> Solution {
    match fulfill.solve(outcome, subst) {
        Assembly::Answer(solution) => solution,
        Assembly::Unique(value) => Solution::Unique(table.canonicalize_constrained(value)),
        Assembly::Incomplete(subst) => {
            let trivial = table.is_trivial(&subst);
            match Fulfill::guide(subst, trivial) {
                Guide::Definite(subst) => Solution::Ambig(Guidance::Definite(table.canonicalize(&subst))),
                Guide::Suggest(subst) => {
                    while let Some(goal) = fulfill.candidate() {
                        let positive = solver(&goal, table).unwrap();
                        if let Some(application) = Fulfill::suggest(positive) {
                            apply(fulfill, table, application);
                            return Solution::Ambig(Guidance::Suggested(table.canonicalize(&subst)));
                        }
                    }
                    Solution::Ambig(Guidance::Unknown)
                }
            }
        }
    }
}

fn attempt(
    environment: &Environment,
    goal: Goal,
    subst: Substitution,
    solver: Solver,
    inverter: Inverter,
) -> Result<Solution, NoSolution> {
    let mut fulfill = Fulfill::new();
    let mut table = Table::new();
    decompose(&mut fulfill, &mut table, environment, goal)?;
    let outcome = rounds(&mut fulfill, &mut table, &mut *solver, inverter)?;
    Ok(answer(&mut fulfill, &mut table, solver, outcome, subst))
}

fn leaf(id: u64) -> Goal {
    Goal::Leaf(LeafGoal::DomainGoal(DomainGoal { id }))
}

fn leaf_id(goal: &InEnvironment<Goal>) -> u64 {
    match goal.goal {
        Goal::Leaf(LeafGoal::DomainGoal(DomainGoal { id })) => id,
        _ => panic!("a domain goal"),
    }
}

fn and(left: Goal, right: Goal) -> Goal {
    Goal::And(Box::new(left), Box::new(right))
}

fn var(index: u32) -> Term {
    Term::Var(InferenceVar { index })
}

fn subst(parameters: Vec<Term>) -> Substitution {
    Substitution { parameters }
}

fn positive(free_vars: Vec<u32>, solution: Solution) -> PositiveSolution {
    PositiveSolution {
        free_vars: free_vars.into_iter().map(|index| InferenceVar { index }).collect(),
        universes: UniverseMap { universes: vec![0] },
        solution,
    }
}

fn unique(parameters: Vec<Term>) -> Solution {
    Solution::Unique(Canonical {
        value: ConstrainedSubst { subst: subst(parameters), constraints: vec![] },
        binders: vec![],
    })
}

fn unique_answer(parameters: Vec<Term>, constraints: Vec<InEnvironment<Constraint>>) -> Solution {
    Solution::Unique(Canonical {
        value: ConstrainedSubst { subst: subst(parameters), constraints },
        binders: vec![],
    })
}

fn no_solver(_: &InEnvironment<Goal>, _: &Table) -> Result<PositiveSolution, NoSolution> {
    panic!("no obligation to prove")
}

fn no_inverter(_: &InEnvironment<Goal>, _: &Table) -> Option<Result<Solution, NoSolution>> {
    panic!("no obligation to refute")
}

#[test]
fn trivial_equality_is_unique() {
    let goal = Goal::Leaf(LeafGoal::EqGoal(EqGoal { a: var(0), b: var(0) }));
    let solution = attempt(&Environment::new(), goal, subst(vec![]), &mut no_solver, &mut no_inverter);
    assert_eq!(solution, Ok(unique_answer(vec![], vec![])));
}

#[test]
fn equality_binds_the_answer() {
    let goal = Goal::Leaf(LeafGoal::EqGoal(EqGoal { a: var(0), b: Term::Interned(12) }));
    let solution = attempt(&Environment::new(), goal, subst(vec![var(0)]), &mut no_solver, &mut no_inverter);
    assert_eq!(solution, Ok(unique_answer(vec![Term::Interned(12)], vec![])));
}

#[test]
fn equality_that_cannot_hold_has_no_solution() {
    let goal = and(
        leaf(1),
        Goal::Leaf(LeafGoal::EqGoal(EqGoal { a: Term::Interned(1), b: Term::Interned(2) })),
    );
    let solution = attempt(&Environment::new(), goal, subst(vec![]), &mut no_solver, &mut no_inverter);
    assert_eq!(solution, Err(NoSolution));
}

#[test]
fn unsatisfiable_leaf_has_no_solution() {
    let mut tried = 0;
    let mut solver = |_: &InEnvironment<Goal>, _: &Table| {
        tried += 1;
        Err(NoSolution)
    };
    let solution = attempt(&Environment::new(), and(leaf(1), leaf(2)), subst(vec![]), &mut solver, &mut no_inverter);
    assert_eq!(solution, Err(NoSolution));
    assert_eq!(tried, 1);
}

#[test]
fn scoped_implication_reaches_the_solver_with_its_clauses() {
    let base = Environment::new().add_clauses(&vec![ProgramClause { id: 1 }]);
    let goal = and(Goal::Implies(vec![ProgramClause { id: 2 }], Box::new(leaf(10))), leaf(11));
    let mut seen: Vec<(u64, Vec<ProgramClause>)> = vec![];
    let mut solver = |goal: &InEnvironment<Goal>, _: &Table| {
        seen.push((leaf_id(goal), goal.environment.clauses().clone()));
        Ok(positive(vec![], unique(vec![])))
    };
    let solution = attempt(&base, goal, subst(vec![]), &mut solver, &mut no_inverter);
    assert_eq!(solution, Ok(unique_answer(vec![], vec![])));
    assert_eq!(
        seen,
        vec![
            (11, vec![ProgramClause { id: 1 }]),
            (10, vec![ProgramClause { id: 1 }, ProgramClause { id: 2 }]),
        ]
    );
}

/// Obligation 1 is ambiguous until variable 0 is bound, and obligation 2
/// binds it.
fn shared_variable(tried: &mut Vec<u64>, goal: &InEnvironment<Goal>, table: &Table) -> Result<PositiveSolution, NoSolution> {
    tried.push(leaf_id(goal));
    match leaf_id(goal) {
        1 => match table.resolve(var(0)) {
            Term::Var(_) => Ok(positive(vec![0], Solution::Ambig(Guidance::Unknown))),
            _ => Ok(positive(vec![], unique(vec![]))),
        },
        _ => Ok(positive(vec![0], unique(vec![Term::Interned(50)]))),
    }
}

#[test]
fn second_round_discharges_what_the_first_left_ambiguous() {
    let mut tried = vec![];
    let mut solver = |goal: &InEnvironment<Goal>, table: &Table| shared_variable(&mut tried, goal, table);
    let mut fulfill = Fulfill::new();
    let mut table = Table::new();
    assert_eq!(decompose(&mut fulfill, &mut table, &Environment::new(), and(leaf(2), leaf(1))), Ok(()));
    let outcome = rounds(&mut fulfill, &mut table, &mut solver, &mut no_inverter);
    assert_eq!(outcome, Ok(Outcome::Complete));
    assert!(fulfill.obligations().is_empty());
    let solution = answer(&mut fulfill, &mut table, &mut solver, Outcome::Complete, subst(vec![var(0)]));
    assert_eq!(solution, unique_answer(vec![Term::Interned(50)], vec![]));
    assert_eq!(tried, vec![1, 2, 1]);
}

#[test]
fn order_of_the_conjuncts_does_not_change_the_answer() {
    let mut tried = vec![];
    let mut solver = |goal: &InEnvironment<Goal>, table: &Table| shared_variable(&mut tried, goal, table);
    let first = attempt(&Environment::new(), and(leaf(2), leaf(1)), subst(vec![var(0)]), &mut solver, &mut no_inverter);
    let second = attempt(&Environment::new(), and(leaf(1), leaf(2)), subst(vec![var(0)]), &mut solver, &mut no_inverter);
    assert_eq!(first, Ok(unique_answer(vec![Term::Interned(50)], vec![])));
    assert_eq!(second, first);
    assert_eq!(tried, vec![1, 2, 1, 2, 1]);
}

#[test]
fn ground_goal_is_unique_or_fails() {
    let mut proved = |_: &InEnvironment<Goal>, _: &Table| Ok(positive(vec![], unique(vec![])));
    let mut refuted = |_: &InEnvironment<Goal>, _: &Table| Some(Err(NoSolution));
    let goal = and(leaf(1), Goal::Not(Box::new(leaf(2))));
    let solution = attempt(&Environment::new(), goal, subst(vec![]), &mut proved, &mut refuted);
    assert_eq!(solution, Ok(unique_answer(vec![], vec![])));
    let mut holds = |_: &InEnvironment<Goal>, _: &Table| Some(Ok(unique(vec![])));
    let goal = and(leaf(1), Goal::Not(Box::new(leaf(2))));
    let solution = attempt(&Environment::new(), goal, subst(vec![]), &mut proved, &mut holds);
    assert_eq!(solution, Err(NoSolution));
}

#[test]
fn negation_of_a_goal_that_is_not_ground_stays_ambiguous() {
    let mut asked = 0;
    let mut inverter = |_: &InEnvironment<Goal>, _: &Table| {
        asked += 1;
        None
    };
    let goal = Goal::Not(Box::new(leaf(1)));
    let solution = attempt(&Environment::new(), goal, subst(vec![var(0)]), &mut no_solver, &mut inverter);
    assert_eq!(solution, Ok(Solution::Ambig(Guidance::Unknown)));
    assert_eq!(asked, 1);
}

#[test]
fn negation_is_refuted_once_the_goal_is_ground() {
    // The goal under the negation can be inverted once variable 0 is bound.
    let mut solver = |_: &InEnvironment<Goal>, _: &Table| Ok(positive(vec![0], unique(vec![Term::Interned(3)])));
    let mut asked = vec![];
    let mut inverter = |_: &InEnvironment<Goal>, table: &Table| match table.resolve(var(0)) {
        Term::Var(_) => {
            asked.push(false);
            None
        }
        _ => {
            asked.push(true);
            Some(Err(NoSolution))
        }
    };
    let goal = and(leaf(1), Goal::Not(Box::new(leaf(2))));
    let solution = attempt(&Environment::new(), goal, subst(vec![var(0)]), &mut solver, &mut inverter);
    assert_eq!(solution, Ok(unique_answer(vec![Term::Interned(3)], vec![])));
    assert_eq!(asked, vec![false, true]);
}

#[test]
fn cannot_prove_makes_the_answer_unknown() {
    let mut solver = |_: &InEnvironment<Goal>, _: &Table| Ok(positive(vec![0], unique(vec![Term::Interned(3)])));
    let goal = and(leaf(1), Goal::CannotProve);
    let solution = attempt(&Environment::new(), goal, subst(vec![var(0)]), &mut solver, &mut no_inverter);
    assert_eq!(solution, Ok(Solution::Ambig(Guidance::Unknown)));
}

#[test]
fn cannot_prove_does_not_hide_a_failure() {
    let mut solver = |_: &InEnvironment<Goal>, _: &Table| Err(NoSolution);
    let goal = and(leaf(1), Goal::CannotProve);
    let solution = attempt(&Environment::new(), goal, subst(vec![]), &mut solver, &mut no_inverter);
    assert_eq!(solution, Err(NoSolution));
}

#[test]
fn forced_shape_is_definite_guidance() {
    // The solver forces variable 0 to the shape 60 and stays ambiguous.
    let mut solver = |_: &InEnvironment<Goal>, table: &Table| match table.resolve(var(0)) {
        Term::Var(_) => Ok(positive(
            vec![0],
            Solution::Ambig(Guidance::Definite(Canonical { value: subst(vec![Term::Interned(60)]), binders: vec![] })),
        )),
        _ => Ok(positive(vec![], Solution::Ambig(Guidance::Unknown))),
    };
    let solution = attempt(&Environment::new(), leaf(1), subst(vec![var(0)]), &mut solver, &mut no_inverter);
    assert_eq!(
        solution,
        Ok(Solution::Ambig(Guidance::Definite(Canonical { value: subst(vec![Term::Interned(60)]), binders: vec![] })))
    );
}

#[test]
fn suggestion_of_an_open_obligation_is_passed_up() {
    let mut solver = |goal: &InEnvironment<Goal>, _: &Table| match leaf_id(goal) {
        1 => Ok(positive(vec![0], Solution::Ambig(Guidance::Unknown))),
        _ => Ok(positive(
            vec![0],
            Solution::Ambig(Guidance::Suggested(Canonical { value: subst(vec![Term::Interned(70)]), binders: vec![] })),
        )),
    };
    let goal = and(leaf(2), and(Goal::Not(Box::new(leaf(3))), leaf(1)));
    let mut inverter = |_: &InEnvironment<Goal>, _: &Table| None;
    let solution = attempt(&Environment::new(), goal, subst(vec![var(0)]), &mut solver, &mut inverter);
    assert_eq!(
        solution,
        Ok(Solution::Ambig(Guidance::Suggested(Canonical { value: subst(vec![Term::Interned(70)]), binders: vec![] })))
    );
}

#[test]
fn nothing_to_suggest_is_unknown() {
    let mut solver = |_: &InEnvironment<Goal>, _: &Table| Ok(positive(vec![0], Solution::Ambig(Guidance::Unknown)));
    let solution = attempt(&Environment::new(), and(leaf(1), leaf(2)), subst(vec![var(0)]), &mut solver, &mut no_inverter);
    assert_eq!(solution, Ok(Solution::Ambig(Guidance::Unknown)));
}

#[test]
fn constraints_of_a_solution_reach_the_answer_once() {
    let region = InEnvironment::new(&Environment::new(), Constraint::LifetimeEq(Term::Placeholder(1, 0), Term::Placeholder(1, 1)));
    let mut solver = |_: &InEnvironment<Goal>, _: &Table| {
        Ok(positive(
            vec![],
            unique_answer(
                vec![],
                vec![InEnvironment::new(
                    &Environment::new(),
                    Constraint::LifetimeEq(Term::Placeholder(1, 0), Term::Placeholder(1, 1)),
                )],
            ),
        ))
    };
    let solution = attempt(&Environment::new(), and(leaf(1), leaf(2)), subst(vec![]), &mut solver, &mut no_inverter);
    assert_eq!(solution, Ok(unique_answer(vec![], vec![region])));
}

#[test]
fn quantified_goal_is_entered_once_instantiated() {
    let body = and(leaf(1), Goal::Leaf(LeafGoal::EqGoal(EqGoal { a: var(0), b: Term::Interned(5) })));
    let goal = Goal::Quantified(
        QuantifierKind::Exists,
        Binders { binders: vec![ParameterKind::Ty], value: Box::new(body) },
    );
    let mut seen = vec![];
    let mut solver = |goal: &InEnvironment<Goal>, table: &Table| {
        seen.push((leaf_id(goal), table.resolve(var(0))));
        Ok(positive(vec![], unique(vec![])))
    };
    let solution = attempt(&Environment::new(), goal, subst(vec![var(0)]), &mut solver, &mut no_inverter);
    assert_eq!(solution, Ok(unique_answer(vec![Term::Interned(5)], vec![])));
    assert_eq!(seen, vec![(1, Term::Interned(5))]);
}
