//! Decomposition: from a goal to its obligations.

use vstd::prelude::*;
use crate::environment::{Environment, InEnvironment};
use crate::fulfill::{
    lemma_placed_drop_last, lemma_placed_push, lemma_settle_first, lemma_stack_push, lemma_views_push, Fulfill,
};
use crate::goal::{Goal, LeafGoal};
use crate::obligation::{frontier, request_view, settle, unfold, weight, Atom, Obligation, Request};

verus! {

impl Fulfill {
    /// Decomposes the goals that wait, as far as that goes without the
    /// inference table.
    ///
    /// The atoms of the waiting goals are gone through in order. Each
    /// obligation is queued, and a goal that cannot be proved raises the flag
    /// and queues nothing. At the first quantified goal or equality the
    /// decomposition halts and hands out the request; the atoms behind it
    /// wait for the next call. Without such an atom, nothing waits any more
    /// and no request comes back.
    pub fn resume(&mut self) -> (request: Option<Request>)
        ensures
            ({
                let settled = settle(
                    old(self)@.obligations,
                    old(self)@.cannot_prove,
                    frontier(old(self)@.pending),
                );
                &&& final(self)@.obligations == settled.obligations
                &&& final(self)@.cannot_prove == settled.cannot_prove
                &&& request_view(request) == settled.request
                &&& frontier(final(self)@.pending) == settled.rest
            }),
            final(self)@.deferred == old(self)@.deferred,
            final(self)@.constraints == old(self)@.constraints,
            final(self)@.progress == old(self)@.progress,
    {
        loop
            invariant
                settle(self@.obligations, self@.cannot_prove, frontier(self@.pending)) == settle(
                    old(self)@.obligations,
                    old(self)@.cannot_prove,
                    frontier(old(self)@.pending),
                ),
                self@.deferred == old(self)@.deferred,
                self@.constraints == old(self)@.constraints,
                self@.progress == old(self)@.progress,
            decreases weight(self@.pending),
        {
            let ghost stack = self@.pending;
            let ghost queued = self@.obligations;
            let ghost flag = self@.cannot_prove;
            proof {
                if self.pending@.len() > 0 {
                    lemma_placed_drop_last(self.pending@);
                }
            }
            match self.pending.pop() {
                None => {
                    assert(stack.len() == 0);
                    return None;
                },
                Some(InEnvironment { environment, goal }) => {
                    let ghost below = stack.drop_last();
                    assert(self@.pending == below);
                    assert(stack.last() == (environment@, goal));
                    assert(frontier(stack) == unfold(environment@, goal) + frontier(below));
                    assert(weight(stack) == goal.size() + weight(below));
                    match goal {
                        Goal::Quantified(kind, binders) => {
                            proof {
                                lemma_settle_first(
                                    queued,
                                    flag,
                                    Atom::Instantiate(kind, environment@, binders),
                                    frontier(below),
                                );
                            }
                            return Some(Request::Instantiate(kind, environment, binders));
                        },
                        Goal::Implies(clauses, body) => {
                            let extended = environment.add_clauses(&clauses);
                            let inner = InEnvironment { environment: extended, goal: *body };
                            proof {
                                lemma_placed_push(self.pending@, inner);
                                lemma_stack_push(below, extended@, *body);
                            }
                            self.pending.push(inner);
                        },
                        Goal::And(left, right) => {
                            let copy = environment.duplicate();
                            let second = InEnvironment { environment, goal: *right };
                            let first = InEnvironment { environment: copy, goal: *left };
                            proof {
                                lemma_placed_push(self.pending@, second);
                                lemma_placed_push(self.pending@.push(second), first);
                                lemma_stack_push(below, environment@, *right);
                                lemma_stack_push(below.push(second@), environment@, *left);
                                assert(unfold(environment@, *left) + (unfold(environment@, *right) + frontier(below))
                                    =~= (unfold(environment@, *left) + unfold(environment@, *right)) + frontier(
                                    below,
                                ));
                            }
                            self.pending.push(second);
                            self.pending.push(first);
                        },
                        Goal::Not(body) => {
                            let obligation = Obligation::Refute(InEnvironment { environment, goal: *body });
                            proof {
                                lemma_views_push(self.obligations@, obligation);
                                lemma_settle_first(queued, flag, Atom::Obligation(obligation@), frontier(below));
                            }
                            self.obligations.push(obligation);
                        },
                        Goal::Leaf(LeafGoal::DomainGoal(domain)) => {
                            let leaf = Goal::Leaf(LeafGoal::DomainGoal(domain));
                            let obligation = Obligation::Prove(InEnvironment { environment, goal: leaf });
                            proof {
                                lemma_views_push(self.obligations@, obligation);
                                lemma_settle_first(queued, flag, Atom::Obligation(obligation@), frontier(below));
                            }
                            self.obligations.push(obligation);
                        },
                        Goal::Leaf(LeafGoal::EqGoal(eq)) => {
                            proof {
                                lemma_settle_first(
                                    queued,
                                    flag,
                                    Atom::Unify(environment@, eq.a, eq.b),
                                    frontier(below),
                                );
                            }
                            return Some(Request::Unify(environment, eq.a, eq.b));
                        },
                        Goal::CannotProve => {
                            proof {
                                lemma_settle_first(queued, flag, Atom::CannotProve, frontier(below));
                            }
                            self.cannot_prove = true;
                        },
                    }
                },
            }
        }
    }

    /// Creates the obligations for `goal` under `environment`, as far as that
    /// goes without the inference table.
    ///
    /// The goal is decomposed before the goals that wait already, as
    /// `resume` does it: by its shape, and with its own environment.
    pub fn push_goal(&mut self, environment: &Environment, goal: Goal) -> (request: Option<Request>)
        ensures
            ({
                let settled = settle(
                    old(self)@.obligations,
                    old(self)@.cannot_prove,
                    unfold(environment@, goal) + frontier(old(self)@.pending),
                );
                &&& final(self)@.obligations == settled.obligations
                &&& final(self)@.cannot_prove == settled.cannot_prove
                &&& request_view(request) == settled.request
                &&& frontier(final(self)@.pending) == settled.rest
            }),
            final(self)@.deferred == old(self)@.deferred,
            final(self)@.constraints == old(self)@.constraints,
            final(self)@.progress == old(self)@.progress,
    {
        let placed_goal = InEnvironment::new(environment, goal);
        proof {
            lemma_placed_push(self.pending@, placed_goal);
            lemma_stack_push(self@.pending, environment@, goal);
        }
        self.pending.push(placed_goal);
        self.resume()
    }
}

} // verus!
