use kernel_core::linked_list::{LinkedList, ListItem};
use kernel_core::process::{Process, RegisterSet, SwitchFrame};
use kernel_core::scheduler::Scheduler;

fn frame(psp: usize) -> SwitchFrame {
    SwitchFrame { psp, regs: RegisterSet::zeroed() }
}

fn three_process_scheduler() -> Scheduler {
    let mut sched = Scheduler::new();
    sched.push(ListItem::new(Process::new(0x2000_0000, 2048, 0x100)));
    sched.push(ListItem::new(Process::new(0x2000_0800, 2048, 0x200)));
    sched.push(ListItem::new(Process::new(0x2000_1000, 2048, 0x300)));
    sched
}

#[test]
fn intrusive_list_links_in_push_order_and_wraps() {
    let mut list = LinkedList::new();
    assert_eq!(list.len(), 0);
    list.push(ListItem::new(Process::new(0x2000_0000, 2048, 0x100)));
    list.push(ListItem::new(Process::new(0x2000_0800, 2048, 0x200)));
    list.push(ListItem::new(Process::new(0x2000_1000, 2048, 0x300)));
    assert_eq!(list.len(), 3);
    assert_eq!(list.next_slot(0), 1);
    assert_eq!(list.next_slot(1), 2);
    // the tail's link wraps the circular traversal back to the head
    assert_eq!(list.next_slot(2), 0);
}

#[test]
fn one_cycle_visits_each_process_once_in_push_order() {
    let mut sched = three_process_scheduler();
    let yields = vec![frame(0x9000), frame(0x9001), frame(0x9002)];
    let visited = sched.exec(&yields);
    // one full cycle: every marker exactly once, in push order
    assert_eq!(visited, vec![0, 1, 2]);
}

#[test]
fn round_robin_repeats_push_order_indefinitely() {
    let mut sched = three_process_scheduler();
    let mut yields = Vec::new();
    for k in 0..7 {
        yields.push(frame(0x9000 + k));
    }
    let visited = sched.exec(&yields);
    assert_eq!(visited, vec![0, 1, 2, 0, 1, 2, 0]);
    // each process saved the state of its latest visit
    assert_eq!(sched.list.items[0].process.sp, 0x9006);
    assert_eq!(sched.list.items[1].process.sp, 0x9004);
    assert_eq!(sched.list.items[2].process.sp, 0x9005);
}

#[test]
fn run_one_advances_the_cursor_cyclically() {
    let mut sched = three_process_scheduler();
    assert_eq!(sched.run_one(frame(0x9000)), 0);
    assert_eq!(sched.cursor, 1);
    assert_eq!(sched.run_one(frame(0x9001)), 1);
    assert_eq!(sched.run_one(frame(0x9002)), 2);
    assert_eq!(sched.cursor, 0);
    assert_eq!(sched.run_one(frame(0x9003)), 0);
}

#[test]
fn single_process_scheduler_keeps_running_the_same_process() {
    let mut sched = Scheduler::new();
    sched.push(ListItem::new(Process::new(0x2000_0000, 2048, 0x100)));
    let yields = vec![frame(0xA000), frame(0xA001), frame(0xA002)];
    let visited = sched.exec(&yields);
    assert_eq!(visited, vec![0, 0, 0]);
    assert_eq!(sched.list.items[0].process.sp, 0xA002);
}
