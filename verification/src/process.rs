//! Processes and the context switch protocol.
//!
//! A process owns a dedicated stack region and the register state that
//! survives between its voluntary yields: the unprivileged stack
//! pointer and the eight general-purpose registers the hardware
//! exception frame does not cover. Construction fabricates a first
//! hardware-style exception frame just below the top of the stack so
//! that the very first switch "returns" into the entry function.
//!
//! The privileged trap itself (the supervisor call) is the shell's
//! business; here the protocol is modeled as the exact save/restore
//! bookkeeping around that single suspension point, plus the handler's
//! mode decision.

use vstd::prelude::*;

verus! {

/// Size in bytes of the hardware exception frame.
pub const CONTEXT_FRAME_BYTES: usize = 0x20;

/// Status register value for the default (Thumb) execution state.
pub const INITIAL_XPSR: u32 = 0x0100_0000;

/// The layout the exception-entry hardware expects to find on the
/// stack when returning from an interrupt: eight 32-bit words.
#[derive(Clone, Copy, PartialEq, Eq, Structural, Debug)]
pub struct ContextFrame {
    pub r0: u32,
    pub r1: u32,
    pub r2: u32,
    pub r3: u32,
    pub r12: u32,
    pub lr: u32,
    pub return_addr: u32,
    pub xpsr: u32,
}

/// The eight general-purpose registers (r4-r11) that hardware
/// exception entry does not save, so the switch must.
#[derive(Clone, Copy, PartialEq, Eq, Structural, Debug)]
pub struct RegisterSet {
    pub r4: u32,
    pub r5: u32,
    pub r6: u32,
    pub r7: u32,
    pub r8: u32,
    pub r9: u32,
    pub r10: u32,
    pub r11: u32,
}

impl RegisterSet {
    /// All-zero register set, the state a fresh process starts from.
    pub fn zeroed() -> (r: Self)
        ensures
            r == (RegisterSet { r4: 0, r5: 0, r6: 0, r7: 0, r8: 0, r9: 0, r10: 0, r11: 0 }),
    {
        RegisterSet { r4: 0, r5: 0, r6: 0, r7: 0, r8: 0, r9: 0, r10: 0, r11: 0 }
    }
}

/// What one context switch moves between a process and the processor:
/// the unprivileged stack pointer and the auxiliary registers.
#[derive(Clone, Copy, PartialEq, Eq, Structural, Debug)]
pub struct SwitchFrame {
    pub psp: usize,
    pub regs: RegisterSet,
}

/// One schedulable unit: its stack region, its saved stack pointer and
/// auxiliary registers, and the exception frame its stack top holds.
#[derive(Clone, Copy, PartialEq, Eq, Structural, Debug)]
pub struct Process {
    pub stack_start: usize,
    pub stack_len: usize,
    pub sp: usize,
    pub regs: RegisterSet,
    pub frame: ContextFrame,
}

impl Process {
    /// The stack region is large enough for the fabricated frame and
    /// lies within the address space.
    pub open spec fn wf(self) -> bool {
        &&& self.stack_len >= CONTEXT_FRAME_BYTES
        &&& self.stack_start + self.stack_len <= usize::MAX
    }

    /// What the switch loads into the processor before the trap.
    pub open spec fn save_state(self) -> SwitchFrame {
        SwitchFrame { psp: self.sp, regs: self.regs }
    }

    /// The process as it stands after yielding with state `f`.
    pub open spec fn restore_state(self, f: SwitchFrame) -> Process {
        Process { sp: f.psp, regs: f.regs, ..self }
    }

    /// Build a process over the given stack region: the stack pointer
    /// starts one frame below the top of the region, and that frame is
    /// written so that the first switch enters `entry` in the default
    /// execution state with every general register zeroed.
    pub fn new(stack_start: usize, stack_len: usize, entry: u32) -> (r: Process)
        requires
            stack_len >= CONTEXT_FRAME_BYTES,
            stack_start + stack_len <= usize::MAX,
        ensures
            r.wf(),
            r.stack_start == stack_start,
            r.stack_len == stack_len,
            r.sp == stack_start + stack_len - CONTEXT_FRAME_BYTES,
            r.regs == (RegisterSet { r4: 0, r5: 0, r6: 0, r7: 0, r8: 0, r9: 0, r10: 0, r11: 0 }),
            r.frame == (ContextFrame {
                r0: 0,
                r1: 0,
                r2: 0,
                r3: 0,
                r12: 0,
                lr: 0,
                return_addr: entry,
                xpsr: INITIAL_XPSR,
            }),
    {
        let sp = stack_start + stack_len - CONTEXT_FRAME_BYTES;
        let frame = ContextFrame {
            r0: 0,
            r1: 0,
            r2: 0,
            r3: 0,
            r12: 0,
            lr: 0,
            return_addr: entry,
            xpsr: INITIAL_XPSR,
        };
        Process { stack_start, stack_len, sp, regs: RegisterSet::zeroed(), frame }
    }

    /// The half of the switch that runs before the trap: the processor
    /// takes the process's saved stack pointer and registers.
    pub fn switch_out(&self) -> (f: SwitchFrame)
        ensures
            f == self.save_state(),
    {
        SwitchFrame { psp: self.sp, regs: self.regs }
    }

    /// The half of the switch that runs after the trap: record the
    /// (possibly process-mutated) stack pointer and registers the
    /// process yielded with. Nothing else about the process changes.
    pub fn exec(&mut self, yielded: SwitchFrame)
        ensures
            *final(self) == old(self).restore_state(yielded),
            final(self).sp == yielded.psp,
            final(self).regs == yielded.regs,
            final(self).stack_start == old(self).stack_start,
            final(self).stack_len == old(self).stack_len,
            final(self).frame == old(self).frame,
    {
        self.sp = yielded.psp;
        self.regs = yielded.regs;
    }
}

/// Context switch round trip: a process that yields with exactly the
/// state it was resumed with is unchanged — restoring what was saved
/// reproduces the pre-yield process.
pub proof fn lemma_context_switch_round_trip(p: Process)
    ensures
        p.restore_state(p.save_state()) == p,
{
}

/// Exception return code for a trap taken out of privileged (kernel)
/// thread execution on the main stack.
pub const EXC_RETURN_KERNEL: u32 = 0xFFFF_FFF9;

/// Exception return code that resumes unprivileged thread execution on
/// the process stack.
pub const EXC_RETURN_PROCESS: u32 = 0xFFFF_FFFD;

/// The register writes the supervisor-call handler performs before its
/// exception return: the control register (stack-pointer selector and
/// privilege bit) and the exception return code.
#[derive(Clone, Copy, PartialEq, Eq, Structural, Debug)]
pub struct SvcReturn {
    pub control: u32,
    pub exc_return: u32,
}

/// The supervisor-call handler's decision, from the saved return-mode
/// indicator: a trap taken while the kernel ran switches the processor
/// to unprivileged mode on the process stack; a trap from an already
/// unprivileged context (a voluntary yield) hands control back to the
/// kernel on the main stack.
pub fn svcall_transition(exc_return: u32) -> (r: SvcReturn)
    ensures
        exc_return == EXC_RETURN_KERNEL ==> r == (SvcReturn {
            control: 1,
            exc_return: EXC_RETURN_PROCESS,
        }),
        exc_return != EXC_RETURN_KERNEL ==> r == (SvcReturn {
            control: 0,
            exc_return: EXC_RETURN_KERNEL,
        }),
{
    if exc_return == EXC_RETURN_KERNEL {
        SvcReturn { control: 1, exc_return: EXC_RETURN_PROCESS }
    } else {
        SvcReturn { control: 0, exc_return: EXC_RETURN_KERNEL }
    }
}

} // verus!
