//! Round-robin scheduling.
//!
//! The scheduler owns the intrusive list of processes and a cursor for
//! the next one to run. Each step switches into the cursor's process,
//! records the state that process voluntarily yields with, and moves
//! the cursor one slot along the circular traversal. Processes run in
//! the exact order pushed, repeating indefinitely; there is no
//! priority and no preemption, and a process that never yields starves
//! the rest by design.

use crate::linked_list::{LinkedList, ListItem};
use crate::process::{Process, SwitchFrame};
use vstd::arithmetic::div_mod::{
    lemma_fundamental_div_mod, lemma_fundamental_div_mod_converse_mod, lemma_small_mod,
    lemma_sub_mod_noop,
};
use vstd::arithmetic::mul::{lemma_mul_is_commutative, lemma_mul_is_distributive_add};
use vstd::prelude::*;

verus! {

/// The processes after one switch: the process at the cursor saves the
/// state it yielded with; everyone else is untouched.
pub open spec fn step_spec(s: Seq<Process>, cursor: int, y: SwitchFrame) -> Seq<Process> {
    s.update(cursor, s[cursor].restore_state(y))
}

/// The processes after one switch per element of `ys`, round-robin
/// from a cursor at `c`.
pub open spec fn run_spec(s: Seq<Process>, c: int, ys: Seq<SwitchFrame>) -> Seq<Process>
    decreases ys.len(),
{
    if ys.len() <= 0 {
        s
    } else {
        run_spec(step_spec(s, c, ys[0]), (c + 1) % (s.len() as int), ys.drop_first())
    }
}

/// Stepping a cursor: `(x + 1) % n` advances `x % n` by one slot and
/// wraps it to the head after the tail.
pub proof fn lemma_mod_succ(x: int, n: int)
    requires
        n > 0,
        x >= 0,
    ensures
        (x + 1) % n == if x % n + 1 < n {
            x % n + 1
        } else {
            0
        },
{
    let q = x / n;
    let m = x % n;
    lemma_fundamental_div_mod(x, n);
    lemma_mul_is_commutative(n, q);
    if m + 1 < n {
        assert(x + 1 == q * n + (m + 1));
        lemma_fundamental_div_mod_converse_mod(x + 1, n, q, m + 1);
    } else {
        lemma_mul_is_distributive_add(n, q, 1);
        lemma_mul_is_commutative(n, q + 1);
        assert(x + 1 == (q + 1) * n + 0);
        lemma_fundamental_div_mod_converse_mod(x + 1, n, q + 1, 0);
    }
}

pub struct Scheduler {
    pub list: LinkedList,
    pub cursor: usize,
}

impl Scheduler {
    /// The list is well linked and the cursor points at a slot (or at
    /// the head while the list is still empty).
    pub open spec fn wf(self) -> bool {
        &&& self.list.wf()
        &&& if self.list.spec_len() == 0 {
            self.cursor == 0
        } else {
            self.cursor < self.list.spec_len()
        }
    }

    /// The scheduled processes, in push order.
    pub open spec fn procs(self) -> Seq<Process> {
        self.list.procs()
    }

    /// An idle scheduler with no processes.
    pub fn new() -> (r: Self)
        ensures
            r.wf(),
            r.procs().len() == 0,
            r.cursor == 0,
    {
        Scheduler { list: LinkedList::new(), cursor: 0 }
    }

    /// Add a process to the round. Only meaningful while the scheduler
    /// is still idle (the cursor still at the head).
    pub fn push(&mut self, item: ListItem)
        requires
            old(self).wf(),
            old(self).cursor == 0,
            old(self).procs().len() < usize::MAX,
        ensures
            final(self).wf(),
            final(self).cursor == 0,
            final(self).procs() == old(self).procs().push(item.process),
    {
        self.list.push(item);
    }

    /// One scheduling step: switch into the process under the cursor,
    /// record the state it yielded with, and advance the cursor along
    /// the circular list. Returns the slot that ran.
    pub fn run_one(&mut self, yielded: SwitchFrame) -> (visited: usize)
        requires
            old(self).wf(),
            old(self).procs().len() > 0,
        ensures
            final(self).wf(),
            visited == old(self).cursor,
            final(self).procs() == step_spec(old(self).procs(), old(self).cursor as int, yielded),
            final(self).cursor == (old(self).cursor + 1) % (old(self).procs().len() as int),
    {
        let i = self.cursor;
        let mut it = self.list.items[i];
        it.process.exec(yielded);
        let slot = vstd::std_specs::vec::vec_index_mut(&mut self.list.items, i);
        *slot = it;
        self.cursor = self.list.next_slot(i);
        proof {
            let n = old(self).procs().len() as int;
            lemma_small_mod(i as nat, n as nat);
            lemma_mod_succ(i as int, n);
            assert(self.procs() =~= step_spec(old(self).procs(), i as int, yielded));
        }
        i
    }

    /// The run loop, one switch per element of `yields`: processes are
    /// visited in push order, wrapping from the tail back to the first
    /// pushed, for as long as there are yields to consume — strict
    /// round robin, nothing more and nothing less.
    pub fn exec(&mut self, yields: &Vec<SwitchFrame>) -> (visited: Vec<usize>)
        requires
            old(self).wf(),
            old(self).procs().len() > 0,
        ensures
            final(self).wf(),
            final(self).procs() == run_spec(
                old(self).procs(),
                old(self).cursor as int,
                yields@,
            ),
            visited@.len() == yields@.len(),
            forall|k: int|
                0 <= k < yields@.len() ==> #[trigger] visited@[k] == (old(self).cursor + k) % (
                old(self).procs().len() as int),
            final(self).cursor == (old(self).cursor + yields@.len()) % (
            old(self).procs().len() as int),
    {
        let ghost s0 = self.procs();
        let ghost c0 = self.cursor as int;
        let ghost n = self.procs().len() as int;
        proof {
            lemma_small_mod(c0 as nat, n as nat);
            assert(yields@.skip(0) =~= yields@);
        }
        let mut visited: Vec<usize> = Vec::new();
        let mut k: usize = 0;
        while k < yields.len()
            invariant
                self.wf(),
                self.procs().len() == n,
                n > 0,
                c0 >= 0,
                k <= yields@.len(),
                visited@.len() == k,
                forall|j: int| 0 <= j < k ==> #[trigger] visited@[j] == (c0 + j) % n,
                self.cursor == (c0 + k) % n,
                run_spec(s0, c0, yields@) == run_spec(
                    self.procs(),
                    self.cursor as int,
                    yields@.skip(k as int),
                ),
            decreases yields@.len() - k,
        {
            let ghost c_before = self.cursor as int;
            let y = yields[k];
            let v = self.run_one(y);
            visited.push(v);
            proof {
                lemma_small_mod(c_before as nat, n as nat);
                lemma_mod_succ(c_before, n);
                lemma_mod_succ(c0 + k, n);
                assert(yields@.skip(k as int).drop_first() =~= yields@.skip(k as int + 1));
                assert(yields@.skip(k as int)[0] == yields@[k as int]);
            }
            k = k + 1;
        }
        proof {
            assert(yields@.skip(k as int) =~= Seq::<SwitchFrame>::empty());
        }
        visited
    }
}

/// Strict round robin visits no process twice within one cycle: two
/// steps fewer than a full round apart never land on the same slot.
/// Together with `exec`'s visit order this says every process runs
/// exactly once per `n` consecutive steps, in push order, forever.
pub proof fn lemma_round_robin_no_repeat(c0: int, n: int, k1: int, k2: int)
    requires
        n > 0,
        c0 >= 0,
        0 <= k1 <= k2,
        k2 < k1 + n,
        (c0 + k1) % n == (c0 + k2) % n,
    ensures
        k1 == k2,
{
    lemma_sub_mod_noop(c0 + k2, c0 + k1, n);
    lemma_small_mod(0nat, n as nat);
    lemma_small_mod((k2 - k1) as nat, n as nat);
}

} // verus!
