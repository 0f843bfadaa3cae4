//! Task structures: the scheduler-visible state of a task, its saved CPU
//! context, and unique task identifiers.

use vstd::prelude::*;

verus! {

/// The default kernel stack size for a task, in bytes.
pub const DEFAULT_KERNEL_STACK_SIZE: usize = 8192;

/// The scheduling state of a task.
#[derive(Debug, Clone, Copy, PartialEq, Eq, Structural)]
pub enum TaskState {
    Runnable,
    Running,
    Blocked,
    Terminated,
}

/// The saved CPU context of a task: general-purpose registers, stack and
/// instruction pointers, and the flags register.
#[derive(Debug, Clone, Copy, PartialEq, Eq, Structural)]
pub struct TaskContext {
    pub rax: u64,
    pub rbx: u64,
    pub rcx: u64,
    pub rdx: u64,
    pub rsi: u64,
    pub rdi: u64,
    pub rbp: u64,
    pub r8: u64,
    pub r9: u64,
    pub r10: u64,
    pub r11: u64,
    pub r12: u64,
    pub r13: u64,
    pub r14: u64,
    pub r15: u64,
    pub rsp: u64,
    pub rip: u64,
    pub rflags: u64,
}

impl TaskContext {
    /// A fresh context that will start executing at `rip` on the stack
    /// `rsp`, with interrupts enabled.
    pub fn new(rip: u64, rsp: u64) -> (r: TaskContext)
        ensures
            r.rip == rip,
            r.rsp == rsp,
            r.rbp == rsp,
            r.rflags == 0x202u64,
            r.rax == 0 && r.rbx == 0 && r.rcx == 0 && r.rdx == 0,
            r.rsi == 0 && r.rdi == 0,
            r.r8 == 0 && r.r9 == 0 && r.r10 == 0 && r.r11 == 0,
            r.r12 == 0 && r.r13 == 0 && r.r14 == 0 && r.r15 == 0,
    {
        TaskContext {
            rax: 0, rbx: 0, rcx: 0, rdx: 0, rsi: 0, rdi: 0, rbp: rsp,
            r8: 0, r9: 0, r10: 0, r11: 0, r12: 0, r13: 0, r14: 0, r15: 0,
            rsp,
            rip,
            rflags: 0x202,
        }
    }
}

/// A unique task identifier.
#[derive(Debug, Clone, Copy, PartialEq, Eq, Structural)]
pub struct TaskId(pub u64);

impl TaskId {
    /// Wraps a raw identifier value; the scheduler hands out fresh ones.
    pub fn new(raw: u64) -> (r: TaskId)
        ensures
            r.0 == raw,
    {
        TaskId(raw)
    }
}

/// One task: its identifier, state, saved context and kernel stack.
pub struct Task {
    id: u64,
    state: TaskState,
    context: TaskContext,
    kernel_stack: Vec<u8>,
}

impl Task {
    /// The task's identifier.
    pub closed spec fn id_spec(&self) -> u64 {
        self.id
    }

    /// The task's scheduling state.
    pub closed spec fn state_spec(&self) -> TaskState {
        self.state
    }

    /// The task's saved context.
    pub closed spec fn context_spec(&self) -> TaskContext {
        self.context
    }

    /// A freshly created runnable task with a zeroed kernel stack.
    pub fn new(id: u64, context: TaskContext) -> (r: Task)
        ensures
            r.id_spec() == id,
            r.state_spec() == TaskState::Runnable,
            r.context_spec() == context,
    {
        let mut stack: Vec<u8> = Vec::new();
        let mut i: usize = 0;
        while i < DEFAULT_KERNEL_STACK_SIZE
            invariant
                i <= DEFAULT_KERNEL_STACK_SIZE,
                stack@.len() == i,
            decreases DEFAULT_KERNEL_STACK_SIZE - i,
        {
            stack.push(0u8);
            i = i + 1;
        }
        Task { id, state: TaskState::Runnable, context, kernel_stack: stack }
    }

    /// The task's identifier.
    pub fn id(&self) -> (r: u64)
        ensures
            r == self.id_spec(),
    {
        self.id
    }

    /// The task's scheduling state.
    pub fn state(&self) -> (r: TaskState)
        ensures
            r == self.state_spec(),
    {
        self.state
    }

    /// Moves the task to a new scheduling state.
    pub fn set_state(&mut self, new_state: TaskState)
        ensures
            final(self).state_spec() == new_state,
            final(self).id_spec() == old(self).id_spec(),
            final(self).context_spec() == old(self).context_spec(),
    {
        self.state = new_state;
    }

    /// The task's saved context.
    pub fn context(&self) -> (r: &TaskContext)
        ensures
            *r == self.context_spec(),
    {
        &self.context
    }

    /// The task's saved context, for the scheduler to update on a switch:
    /// what the caller writes through the reference becomes the task's
    /// context.
    pub fn context_mut(&mut self) -> (r: &mut TaskContext)
        ensures
            final(self).id_spec() == old(self).id_spec(),
            final(self).state_spec() == old(self).state_spec(),
    {
        &mut self.context
    }
}

} // verus!
