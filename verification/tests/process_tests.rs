use kernel_core::process::{
    svcall_transition, Process, RegisterSet, SvcReturn, SwitchFrame, CONTEXT_FRAME_BYTES,
    EXC_RETURN_KERNEL, EXC_RETURN_PROCESS, INITIAL_XPSR,
};

#[test]
fn new_process_fabricates_the_first_exception_frame() {
    let p = Process::new(0x2000_0000, 2048, 0x0800_0101);
    assert_eq!(p.sp, 0x2000_0000 + 2048 - CONTEXT_FRAME_BYTES);
    assert_eq!(p.frame.r0, 0);
    assert_eq!(p.frame.r1, 0);
    assert_eq!(p.frame.r2, 0);
    assert_eq!(p.frame.r3, 0);
    assert_eq!(p.frame.r12, 0);
    assert_eq!(p.frame.lr, 0);
    assert_eq!(p.frame.return_addr, 0x0800_0101);
    assert_eq!(p.frame.xpsr, INITIAL_XPSR);
    assert_eq!(p.regs, RegisterSet::zeroed());
}

#[test]
fn context_switch_round_trip_preserves_process_state() {
    let mut p = Process::new(0x2000_0000, 2048, 0x0800_0101);
    let before = p;
    // a process that yields with exactly the state it was resumed
    // with is unchanged on the next visit
    let saved = p.switch_out();
    p.exec(saved);
    assert_eq!(p, before);
}

#[test]
fn exec_records_the_yielded_state() {
    let mut p = Process::new(0x2000_0000, 2048, 0x0800_0101);
    let mut regs = RegisterSet::zeroed();
    regs.r4 = 0xDEAD;
    regs.r11 = 0xBEEF;
    p.exec(SwitchFrame { psp: 0x2000_0700, regs });
    assert_eq!(p.sp, 0x2000_0700);
    assert_eq!(p.regs.r4, 0xDEAD);
    assert_eq!(p.regs.r11, 0xBEEF);
    // the stack region and the fabricated frame are untouched
    assert_eq!(p.stack_start, 0x2000_0000);
    assert_eq!(p.stack_len, 2048);
    assert_eq!(p.frame.return_addr, 0x0800_0101);
}

#[test]
fn svcall_from_kernel_drops_to_the_process_stack() {
    let r = svcall_transition(EXC_RETURN_KERNEL);
    assert_eq!(r, SvcReturn { control: 1, exc_return: EXC_RETURN_PROCESS });
}

#[test]
fn svcall_from_a_yielding_process_returns_to_the_kernel() {
    let r = svcall_transition(EXC_RETURN_PROCESS);
    assert_eq!(r, SvcReturn { control: 0, exc_return: EXC_RETURN_KERNEL });
    // any non-kernel return code is a voluntary yield
    let r2 = svcall_transition(0xFFFF_FFF1);
    assert_eq!(r2, SvcReturn { control: 0, exc_return: EXC_RETURN_KERNEL });
}
