use vstd::prelude::*;

verus! {

/// Number of 4 KiB pages in a kernel stack.
pub const DEFAULT_KSTACK_PAGES: usize = 2;

/// Kernel stack length in 64-bit words.
pub const KSTACK_WORDS: usize = DEFAULT_KSTACK_PAGES * 0x1000 / 8;

/// User stack size in bytes; the initial user stack pointer is the offset of
/// the user stack's top, i.e. this value.
pub const USTACK_SIZE: usize = 2 * 0x1000;

/// Stands for the entry address of the assembly trampoline that the first
/// switch into a fresh context returns through (an `iretq` stub).  The model
/// carries no code addresses, so the frame slot holds this marker.
pub const CONTEXT_ENTRY_RETURN: u64 = 0;

/// Stack segment selector of the initial privilege-transition frame.
pub const INIT_SS: u64 = 0x10;
/// Code segment selector of the initial privilege-transition frame.
pub const INIT_CS: u64 = 0x08;
/// Initial RFLAGS value (interrupts enabled).
pub const INIT_RFLAGS: u64 = 0x200;

/// Saved execution state of a task: the kernel stack with its saved stack
/// pointer, and the user stack.
///
/// Stacks are owned, fixed-size buffers.  The kernel stack is addressed in
/// 64-bit words; `rsp0` is the word index of the saved stack pointer and
/// `rsp0_top` caches the top-of-stack index that the hardware trap-entry
/// mechanism is given on every switch into this context.
pub struct Context {
    pub rsp0: usize,
    pub rsp0_top: usize,
    pub kstack: Vec<u64>,
    pub ustack: Vec<u8>,
}

impl Context {
    /// Well-formed context: the saved stack pointer lies strictly within the
    /// owned kernel stack region and the cached top matches the buffer.
    pub open spec fn wf(&self) -> bool {
        &&& self.kstack.len() == KSTACK_WORDS
        &&& self.rsp0_top == KSTACK_WORDS
        &&& 0 < self.rsp0 <= KSTACK_WORDS
        &&& self.ustack.len() == USTACK_SIZE
    }

    /// The synthetic initial frame that `new` builds on the kernel stack:
    /// a privilege-transition frame (stack segment, initial user stack
    /// pointer, flags, code segment, entry address), the trampoline return
    /// address, and six zeroed callee-saved registers
    /// (r15, r14, r13, r12, rbp, rbx).
    pub open spec fn initial_frame_built(&self, entry: u64) -> bool {
        let top = self.kstack.len() as int;
        &&& self.rsp0 == top - 12
        &&& self.kstack@[top - 1] == INIT_SS
        &&& self.kstack@[top - 2] == USTACK_SIZE as u64
        &&& self.kstack@[top - 3] == INIT_RFLAGS
        &&& self.kstack@[top - 4] == INIT_CS
        &&& self.kstack@[top - 5] == entry
        &&& self.kstack@[top - 6] == CONTEXT_ENTRY_RETURN
        &&& forall|i: int| top - 12 <= i < top - 6 ==> self.kstack@[i] == 0
    }

    /// Allocate both stacks (zero-initialized) and pre-build the initial
    /// frame, so that the first switch into this context lands directly in
    /// `entry` with deterministically zeroed callee-saved registers.
    pub fn new(entry: u64) -> (ctx: Context)
        ensures
            ctx.wf(),
            ctx.initial_frame_built(entry),
            forall|i: int| 0 <= i < ctx.ustack.len() ==> ctx.ustack@[i] == 0,
    {
        let mut ctx = Context {
            rsp0: 0,
            rsp0_top: 0,
            kstack: vec![0u64; KSTACK_WORDS],
            ustack: vec![0u8; USTACK_SIZE],
        };
        ctx.setup(entry);
        ctx
    }

    /// Write one word just below the current stack pointer.  Frame
    /// construction halts the system on kernel stack exhaustion, so a
    /// verified caller must stay within the region.
    fn push(&mut self, val: u64)
        requires
            0 < old(self).rsp0 <= old(self).kstack.len(),
        ensures
            final(self).rsp0 == old(self).rsp0 - 1,
            final(self).kstack@ == old(self).kstack@.update(old(self).rsp0 - 1, val),
            final(self).rsp0_top == old(self).rsp0_top,
            final(self).ustack == old(self).ustack,
    {
        self.rsp0 = self.rsp0 - 1;
        let idx = self.rsp0;
        self.kstack[idx] = val;
    }

    /// Build the synthetic initial frame described by `initial_frame_built`.
    fn setup(&mut self, entry: u64)
        requires
            old(self).kstack.len() == KSTACK_WORDS,
            old(self).ustack.len() == USTACK_SIZE,
        ensures
            final(self).wf(),
            final(self).initial_frame_built(entry),
            final(self).ustack == old(self).ustack,
    {
        self.rsp0 = self.kstack.len();
        self.rsp0_top = self.kstack.len();

        // Frame for the `iretq` return to the entry point.
        self.push(INIT_SS);
        self.push(USTACK_SIZE as u64);
        self.push(INIT_RFLAGS);
        self.push(INIT_CS);
        self.push(entry);

        // Return address for the common switch path.
        self.push(CONTEXT_ENTRY_RETURN);

        // Zeroed callee-saved registers: r15, r14, r13, r12, rbp, rbx.
        self.push(0);
        self.push(0);
        self.push(0);
        self.push(0);
        self.push(0);
        self.push(0);
    }
}

} // verus!
