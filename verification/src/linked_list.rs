//! The intrusive process list.
//!
//! Each list node lives beside the process it carries instead of in a
//! separate heap cell; the list itself stores only link relationships.
//! Here the caller-owned nodes sit in an arena of slots, and a link is
//! the index of the next slot, so pushing is O(1) and needs no
//! allocation. Traversal in slot order is insertion order, and the
//! scheduler's circular walk wraps from the tail back to the head.

use crate::process::Process;
use vstd::prelude::*;

verus! {

/// A process together with its embedded link: the slot index of its
/// successor, or `None` at the tail.
#[derive(Clone, Copy, PartialEq, Eq, Structural, Debug)]
pub struct ListItem {
    pub process: Process,
    pub next: Option<usize>,
}

impl ListItem {
    /// Wrap a process in an unlinked node.
    pub fn new(process: Process) -> (r: Self)
        ensures
            r.process == process,
            r.next is None,
    {
        ListItem { process, next: None }
    }
}

/// The singly linked list of processes, held as an arena of nodes in
/// insertion order.
pub struct LinkedList {
    pub items: Vec<ListItem>,
}

impl LinkedList {
    /// Every node links to the slot pushed right after it; the last
    /// node pushed is the open tail.
    pub open spec fn wf(self) -> bool {
        &&& self.items@.len() <= usize::MAX
        &&& forall|i: int|
            0 <= i < self.items@.len() ==> (#[trigger] self.items@[i].next) == (if i + 1
                < self.items@.len() {
                Some((i + 1) as usize)
            } else {
                None
            })
    }

    /// The processes on the list, in insertion order.
    pub open spec fn procs(self) -> Seq<Process> {
        Seq::new(self.items@.len(), |i: int| self.items@[i].process)
    }

    pub open spec fn spec_len(self) -> nat {
        self.items@.len()
    }

    /// An empty list.
    pub fn new() -> (r: Self)
        ensures
            r.wf(),
            r.spec_len() == 0,
    {
        LinkedList { items: Vec::new() }
    }

    pub fn len(&self) -> (n: usize)
        ensures
            n == self.spec_len(),
    {
        self.items.len()
    }

    /// Append a node in O(1): link the current tail to the new slot
    /// and let the new node become the open tail.
    pub fn push(&mut self, item: ListItem)
        requires
            old(self).wf(),
            old(self).spec_len() < usize::MAX,
        ensures
            final(self).wf(),
            final(self).procs() == old(self).procs().push(item.process),
    {
        let n = self.items.len();
        if n > 0 {
            let tail = vstd::std_specs::vec::vec_index_mut(&mut self.items, n - 1);
            tail.next = Some(n);
        }
        let mut item = item;
        item.next = None;
        self.items.push(item);
        proof {
            assert(self.procs() =~= old(self).procs().push(item.process));
        }
    }

    /// The circular successor of slot `i`: follow the embedded link,
    /// or wrap to the head at the open tail.
    pub fn next_slot(&self, i: usize) -> (r: usize)
        requires
            self.wf(),
            i < self.spec_len(),
        ensures
            r == (if i + 1 < self.spec_len() {
                i + 1
            } else {
                0
            }),
    {
        proof {
            assert(self.items@[i as int].next == (if i + 1 < self.items@.len() {
                Some((i + 1) as usize)
            } else {
                None
            }));
        }
        match self.items[i].next {
            Some(j) => j,
            None => 0,
        }
    }
}

} // verus!
