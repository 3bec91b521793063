//! Environments: the hypothesis clauses in scope.

use vstd::prelude::*;
use crate::goal::ProgramClause;

verus! {

/// Whether no value occurs twice in `s`.
pub open spec fn distinct<T>(s: Seq<T>) -> bool {
    forall|i: int, j: int| 0 <= i < j < s.len() ==> s[i] != s[j]
}

/// `acc`, then each value of `items` that has not occurred before it, in
/// the order of `items`.
pub open spec fn merge<T>(acc: Seq<T>, items: Seq<T>) -> Seq<T>
    decreases items.len(),
{
    if items.len() == 0 {
        acc
    } else if acc.contains(items[0]) {
        merge(acc, items.skip(1))
    } else {
        merge(acc.push(items[0]), items.skip(1))
    }
}

/// Merging keeps what was there, adds exactly the new values, and adds
/// none twice.
pub proof fn lemma_merge<T>(acc: Seq<T>, items: Seq<T>)
    ensures
        acc.is_prefix_of(merge(acc, items)),
        merge(acc, items).to_set() == acc.to_set().union(items.to_set()),
        distinct(acc) ==> distinct(merge(acc, items)),
    decreases items.len(),
{
    broadcast use vstd::seq_lib::group_seq_properties;
    if items.len() == 0 {
        assert(items.to_set() =~= Set::empty());
        assert(acc.to_set().union(items.to_set()) =~= acc.to_set());
    } else {
        let rest = items.skip(1);
        let next = if acc.contains(items[0]) { acc } else { acc.push(items[0]) };
        lemma_merge(next, rest);
        assert(next.to_set() =~= acc.to_set().insert(items[0])) by {
            assert forall|x: T| next.to_set().contains(x) <==> acc.to_set().insert(items[0]).contains(x) by {
                if next.contains(x) {
                    let i = choose|i: int| 0 <= i < next.len() && next[i] == x;
                    if i < acc.len() {
                        assert(acc[i] == x);
                    }
                }
                if acc.contains(x) {
                    let i = choose|i: int| 0 <= i < acc.len() && acc[i] == x;
                    assert(next[i] == x);
                }
                if x == items[0] && !acc.contains(items[0]) {
                    assert(next[acc.len() as int] == x);
                }
            }
        }
        assert(items.to_set() =~= rest.to_set().insert(items[0])) by {
            assert forall|x: T| items.to_set().contains(x) <==> rest.to_set().insert(items[0]).contains(x) by {
                if items.contains(x) {
                    let i = choose|i: int| 0 <= i < items.len() && items[i] == x;
                    if i > 0 {
                        assert(rest[i - 1] == x);
                    }
                }
                if rest.contains(x) {
                    let i = choose|i: int| 0 <= i < rest.len() && rest[i] == x;
                    assert(items[i + 1] == x);
                }
            }
        }
        assert(merge(acc, items).to_set() =~= acc.to_set().union(items.to_set()));
        if distinct(acc) {
            assert(distinct(next)) by {
                if !acc.contains(items[0]) {
                    assert forall|i: int, j: int| 0 <= i < j < next.len() implies next[i] != next[j] by {
                        if j == acc.len() {
                            assert(acc[i] == next[i]);
                        }
                    }
                }
            }
        }
    }
}

/// The hypothesis clauses in scope at some point of a proof: a set, kept in
/// the order in which the clauses came into scope.
///
/// An environment is never changed. Extending one makes another.
#[derive(Debug, PartialEq, Eq)]
pub struct Environment {
    clauses: Vec<ProgramClause>,
}

impl View for Environment {
    type V = Seq<ProgramClause>;

    closed spec fn view(&self) -> Seq<ProgramClause> {
        self.clauses@
    }
}

/// Whether `clause` is among `clauses`.
fn holds(clauses: &Vec<ProgramClause>, clause: ProgramClause) -> (found: bool)
    ensures
        found == clauses@.contains(clause),
{
    let mut i: usize = 0;
    while i < clauses.len()
        invariant
            i <= clauses.len(),
            forall|k: int| 0 <= k < i ==> clauses@[k] != clause,
        decreases clauses.len() - i,
    {
        if clauses[i] == clause {
            return true;
        }
        i += 1;
    }
    false
}

impl Environment {
    /// No clause is held twice.
    #[verifier::type_invariant]
    spec fn distinct_clauses(&self) -> bool {
        distinct(self.clauses@)
    }

    /// The environment without clauses.
    pub fn new() -> (environment: Environment)
        ensures
            environment@ == Seq::<ProgramClause>::empty(),
            distinct(environment@),
    {
        Environment { clauses: Vec::new() }
    }

    /// The clauses, in the order in which they came into scope.
    pub fn clauses(&self) -> (clauses: &Vec<ProgramClause>)
        ensures
            clauses@ == self@,
            distinct(clauses@),
    {
        proof {
            use_type_invariant(self);
        }
        &self.clauses
    }

    /// An environment with the same clauses.
    pub fn duplicate(&self) -> (copy: Environment)
        ensures
            copy@ == self@,
            distinct(copy@),
    {
        let mut clauses: Vec<ProgramClause> = Vec::new();
        let mut i: usize = 0;
        while i < self.clauses.len()
            invariant
                i <= self.clauses.len(),
                clauses@ == self.clauses@.take(i as int),
            decreases self.clauses.len() - i,
        {
            clauses.push(self.clauses[i]);
            assert(self.clauses@.take(i + 1) == self.clauses@.take(i as int).push(self.clauses@[i as int]));
            i += 1;
        }
        assert(self.clauses@.take(i as int) == self.clauses@);
        proof {
            use_type_invariant(self);
        }
        Environment { clauses }
    }

    /// This environment extended with `clauses`: a new environment, which
    /// holds each clause of either once.
    pub fn add_clauses(&self, clauses: &Vec<ProgramClause>) -> (extended: Environment)
        ensures
            extended@ == merge(self@, clauses@),
            extended@.to_set() == self@.to_set().union(clauses@.to_set()),
            distinct(extended@),
    {
        let Environment { clauses: mut extended } = self.duplicate();
        let mut i: usize = 0;
        assert(clauses@.skip(0) == clauses@);
        while i < clauses.len()
            invariant
                i <= clauses.len(),
                merge(extended@, clauses@.skip(i as int)) == merge(self@, clauses@),
            decreases clauses.len() - i,
        {
            let clause = clauses[i];
            assert(clauses@.skip(i as int)[0] == clause);
            assert(clauses@.skip(i as int).skip(1) == clauses@.skip(i + 1));
            if !holds(&extended, clause) {
                extended.push(clause);
            }
            i += 1;
        }
        proof {
            use_type_invariant(self);
            lemma_merge(self@, clauses@);
        }
        Environment { clauses: extended }
    }

    /// Whether the two environments hold the same clauses in the same order.
    pub fn same(&self, other: &Environment) -> (equal: bool)
        ensures
            equal == (self@ == other@),
    {
        if self.clauses.len() != other.clauses.len() {
            return false;
        }
        let mut i: usize = 0;
        while i < self.clauses.len()
            invariant
                i <= self.clauses.len(),
                self.clauses.len() == other.clauses.len(),
                forall|k: int| 0 <= k < i ==> self.clauses@[k] == other.clauses@[k],
            decreases self.clauses.len() - i,
        {
            if self.clauses[i] != other.clauses[i] {
                return false;
            }
            i += 1;
        }
        assert(self@ =~= other@);
        true
    }
}

/// A value together with the environment in which it is to hold.
#[derive(Debug, PartialEq, Eq)]
pub struct InEnvironment<G> {
    pub environment: Environment,
    pub goal: G,
}

impl<G> View for InEnvironment<G> {
    type V = (Seq<ProgramClause>, G);

    open spec fn view(&self) -> (Seq<ProgramClause>, G) {
        (self.environment@, self.goal)
    }
}

impl<G> InEnvironment<G> {
    pub fn new(environment: &Environment, goal: G) -> (placed: InEnvironment<G>)
        ensures
            placed@ == (environment@, goal),
    {
        InEnvironment { environment: environment.duplicate(), goal }
    }
}

} // verus!
