use vstd::prelude::*;
use crate::error::KernelError;

verus! {

/// Number of interrupt vectors.
pub const VECTOR_COUNT: usize = 256;

/// Vectors below this signal CPU exceptions.
pub const EXCEPTION_VECTORS: u8 = 32;

/// Vector of hardware interrupt line 0; lines are remapped above the
/// exceptions.
pub const IRQ_BASE: u8 = 32;

/// Number of hardware interrupt lines.
pub const IRQ_LINES: u8 = 16;

/// Vector of the timer, on line 0.
pub const TIMER_VECTOR: u8 = 32;

/// Vector of the system-call trap.
pub const SYSCALL_VECTOR: u8 = 0x80;

/// Whether `vector` signals a CPU exception rather than a line interrupt.
pub open spec fn is_exception(vector: u8) -> bool {
    vector < EXCEPTION_VECTORS
}

/// The hardware line behind `vector`, if it is a line interrupt.
pub open spec fn irq_line(vector: u8) -> Option<u8> {
    if IRQ_BASE <= vector && vector < IRQ_BASE + IRQ_LINES {
        Some((vector - IRQ_BASE) as u8)
    } else {
        None
    }
}

/// What the trap entry must do with an interrupt.
#[derive(Debug, Clone, Copy, PartialEq, Eq, Structural)]
pub enum DispatchAction {
    /// Call the handler registered under this handle.
    Handle(u32),
    /// No handler: report the vector and resume.
    Unhandled(u8),
    /// An exception with no handler: report the vector and halt.
    Fatal(u8),
    /// Masked line, or a dispatch already in progress: do nothing.
    Suppressed,
}

/// The interrupt vector table: a handler handle per vector, the mask of
/// each hardware line, and whether a dispatch is in progress (interrupts
/// are off for its duration).
pub struct InterruptDispatcher {
    handlers: Vec<Option<u32>>,
    masked: Vec<bool>,
    dispatching: bool,
}

/// Command and data ports of the two cascaded interrupt controllers.
pub const PIC1_COMMAND: u16 = 0x20;
pub const PIC1_DATA: u16 = 0x21;
pub const PIC2_COMMAND: u16 = 0xA0;
pub const PIC2_DATA: u16 = 0xA1;

/// Port writes that remap the two controllers' lines to the vectors from
/// `master` and from `slave`: initialise with cascade, set the offsets,
/// wire the slave to line 2, select 8086 mode.
pub open spec fn pic_remap_writes(master: u8, slave: u8) -> Seq<(u16, u8)> {
    seq![
        (PIC1_COMMAND, 0x11u8),
        (PIC2_COMMAND, 0x11u8),
        (PIC1_DATA, master),
        (PIC2_DATA, slave),
        (PIC1_DATA, 0x04u8),
        (PIC2_DATA, 0x02u8),
        (PIC1_DATA, 0x01u8),
        (PIC2_DATA, 0x01u8),
    ]
}

/// The port writes that place hardware lines 0 to 15 at `IRQ_BASE` onward.
pub fn pic_init_writes() -> (r: Vec<(u16, u8)>)
    ensures
        r@ == pic_remap_writes(IRQ_BASE, (IRQ_BASE + 8) as u8),
{
    let mut w: Vec<(u16, u8)> = Vec::new();
    w.push((PIC1_COMMAND, 0x11u8));
    w.push((PIC2_COMMAND, 0x11u8));
    w.push((PIC1_DATA, IRQ_BASE));
    w.push((PIC2_DATA, IRQ_BASE + 8));
    w.push((PIC1_DATA, 0x04u8));
    w.push((PIC2_DATA, 0x02u8));
    w.push((PIC1_DATA, 0x01u8));
    w.push((PIC2_DATA, 0x01u8));
    proof {
        assert(w@ =~= pic_remap_writes(IRQ_BASE, (IRQ_BASE + 8) as u8));
    }
    w
}

/// Two to the `n`.
pub open spec fn bit(n: nat) -> int
    decreases n,
{
    if n == 0 {
        1
    } else {
        2 * bit((n - 1) as nat)
    }
}

/// The mask byte of lines `base` to `base + n - 1`: bit `k` is set when
/// line `base + k` is masked.
pub open spec fn mask_byte(masked: Seq<bool>, base: int, n: nat) -> int
    decreases n,
{
    if n == 0 {
        0
    } else {
        mask_byte(masked, base, (n - 1) as nat) + if masked[base + n - 1] {
            bit((n - 1) as nat)
        } else {
            0
        }
    }
}

proof fn lemma_mask_below(masked: Seq<bool>, base: int, n: nat)
    ensures
        0 <= mask_byte(masked, base, n) < bit(n),
    decreases n,
{
    if n > 0 {
        lemma_mask_below(masked, base, (n - 1) as nat);
    }
}

proof fn lemma_bit_small(n: nat)
    requires
        n <= 8,
    ensures
        1 <= bit(n) <= 256,
        n < 8 ==> bit(n) <= 128,
{
    reveal_with_fuel(bit, 9);
    if n == 0 {
    } else if n == 1 {
    } else if n == 2 {
    } else if n == 3 {
    } else if n == 4 {
    } else if n == 5 {
    } else if n == 6 {
    } else if n == 7 {
    } else {
    }
}

/// The action `dispatch` takes for `vector` in a dispatcher that is idle.
pub open spec fn dispatch_action(handlers: Seq<Option<u32>>, masked: Seq<bool>, vector: u8) -> DispatchAction {
    match irq_line(vector) {
        Some(l) if masked[l as int] => DispatchAction::Suppressed,
        _ => match handlers[vector as int] {
            Some(h) => DispatchAction::Handle(h),
            None => if is_exception(vector) {
                DispatchAction::Fatal(vector)
            } else {
                DispatchAction::Unhandled(vector)
            },
        },
    }
}

impl InterruptDispatcher {
    /// Handler handle of each vector.
    pub closed spec fn handlers(&self) -> Seq<Option<u32>> {
        self.handlers@
    }

    /// Mask of each hardware line; true means masked.
    pub closed spec fn masked(&self) -> Seq<bool> {
        self.masked@
    }

    /// Whether a dispatch is in progress.
    pub closed spec fn in_dispatch(&self) -> bool {
        self.dispatching
    }

    pub closed spec fn wf(&self) -> bool {
        self.handlers@.len() == VECTOR_COUNT && self.masked@.len() == IRQ_LINES
    }

    /// An empty table with every hardware line masked.
    pub fn new() -> (r: Self)
        ensures
            r.wf(),
            r.handlers() == Seq::new(VECTOR_COUNT as nat, |i: int| None::<u32>),
            r.masked() == Seq::new(IRQ_LINES as nat, |i: int| true),
            !r.in_dispatch(),
    {
        let mut handlers: Vec<Option<u32>> = Vec::new();
        let mut i: usize = 0;
        while i < VECTOR_COUNT
            invariant
                i <= VECTOR_COUNT,
                handlers@ == Seq::new(i as nat, |j: int| None::<u32>),
            decreases VECTOR_COUNT - i,
        {
            handlers.push(None);
            i += 1;
            proof {
                assert(handlers@ =~= Seq::new(i as nat, |j: int| None::<u32>));
            }
        }
        let mut masked: Vec<bool> = Vec::new();
        let mut l: u8 = 0;
        while l < IRQ_LINES
            invariant
                l <= IRQ_LINES,
                masked@ == Seq::new(l as nat, |j: int| true),
            decreases IRQ_LINES - l,
        {
            masked.push(true);
            l += 1;
            proof {
                assert(masked@ =~= Seq::new(l as nat, |j: int| true));
            }
        }
        InterruptDispatcher { handlers, masked, dispatching: false }
    }

    /// Registers `handler` for `vector`, replacing whatever was there.
    pub fn install(&mut self, vector: u8, handler: u32)
        requires
            old(self).wf(),
        ensures
            final(self).wf(),
            final(self).handlers() == old(self).handlers().update(vector as int, Some(handler)),
            final(self).masked() == old(self).masked(),
            final(self).in_dispatch() == old(self).in_dispatch(),
    {
        self.handlers.set(vector as usize, Some(handler));
    }

    /// The handler registered for `vector`, if any.
    pub fn handler(&self, vector: u8) -> (r: Option<u32>)
        requires
            self.wf(),
        ensures
            r == self.handlers()[vector as int],
    {
        self.handlers[vector as usize]
    }

    /// Unmasks hardware line `irq`. Fails with `InvalidArgument` for a line
    /// that does not exist.
    pub fn enable_line(&mut self, irq: u8) -> (r: Result<(), KernelError>)
        requires
            old(self).wf(),
        ensures
            final(self).wf(),
            final(self).handlers() == old(self).handlers(),
            final(self).in_dispatch() == old(self).in_dispatch(),
            irq < IRQ_LINES ==> r is Ok && final(self).masked() == old(self).masked().update(
                irq as int,
                false,
            ),
            irq >= IRQ_LINES ==> r == Err::<(), KernelError>(KernelError::InvalidArgument)
                && final(self).masked() == old(self).masked(),
    {
        if irq >= IRQ_LINES {
            return Err(KernelError::InvalidArgument);
        }
        self.masked.set(irq as usize, false);
        Ok(())
    }

    /// Masks hardware line `irq`. Fails with `InvalidArgument` for a line
    /// that does not exist.
    pub fn disable_line(&mut self, irq: u8) -> (r: Result<(), KernelError>)
        requires
            old(self).wf(),
        ensures
            final(self).wf(),
            final(self).handlers() == old(self).handlers(),
            final(self).in_dispatch() == old(self).in_dispatch(),
            irq < IRQ_LINES ==> r is Ok && final(self).masked() == old(self).masked().update(
                irq as int,
                true,
            ),
            irq >= IRQ_LINES ==> r == Err::<(), KernelError>(KernelError::InvalidArgument)
                && final(self).masked() == old(self).masked(),
    {
        if irq >= IRQ_LINES {
            return Err(KernelError::InvalidArgument);
        }
        self.masked.set(irq as usize, true);
        Ok(())
    }

    /// Whether hardware line `irq` is masked.
    pub fn is_masked(&self, irq: u8) -> (r: bool)
        requires
            self.wf(),
            irq < IRQ_LINES,
        ensures
            r == self.masked()[irq as int],
    {
        self.masked[irq as usize]
    }

    /// Entry from the trap: decides what to do with `vector`. Unless the
    /// interrupt is suppressed, a dispatch begins and lasts until
    /// `end_dispatch`; an interrupt that arrives meanwhile is suppressed, so
    /// handling never nests.
    pub fn dispatch(&mut self, vector: u8) -> (r: DispatchAction)
        requires
            old(self).wf(),
        ensures
            final(self).wf(),
            final(self).handlers() == old(self).handlers(),
            final(self).masked() == old(self).masked(),
            old(self).in_dispatch() ==> r == DispatchAction::Suppressed && final(self).in_dispatch(),
            !old(self).in_dispatch() ==> r == dispatch_action(old(self).handlers(), old(self).masked(), vector)
                && final(self).in_dispatch() == (r != DispatchAction::Suppressed),
    {
        if self.dispatching {
            return DispatchAction::Suppressed;
        }
        if IRQ_BASE <= vector && vector < IRQ_BASE + IRQ_LINES {
            if self.masked[(vector - IRQ_BASE) as usize] {
                return DispatchAction::Suppressed;
            }
        }
        let action = match self.handlers[vector as usize] {
            Some(h) => DispatchAction::Handle(h),
            None => if vector < EXCEPTION_VECTORS {
                DispatchAction::Fatal(vector)
            } else {
                DispatchAction::Unhandled(vector)
            },
        };
        self.dispatching = true;
        action
    }

    /// The handler has returned: interrupts may be taken again.
    pub fn end_dispatch(&mut self)
        requires
            old(self).wf(),
        ensures
            final(self).wf(),
            final(self).handlers() == old(self).handlers(),
            final(self).masked() == old(self).masked(),
            !final(self).in_dispatch(),
    {
        self.dispatching = false;
    }

    fn mask_of(&self, base: usize) -> (r: u8)
        requires
            self.wf(),
            base + 8 <= IRQ_LINES,
        ensures
            r == mask_byte(self.masked(), base as int, 8),
    {
        let mut acc: u16 = 0;
        let mut b: u16 = 1;
        let mut i: usize = 0;
        while i < 8
            invariant
                self.wf(),
                base + 8 <= IRQ_LINES,
                i <= 8,
                acc == mask_byte(self.masked(), base as int, i as nat),
                b == bit(i as nat),
                acc < b,
            decreases 8 - i,
        {
            proof {
                lemma_bit_small(i as nat);
                lemma_mask_below(self.masked(), base as int, i as nat);
            }
            if self.masked[base + i] {
                acc = acc + b;
            }
            b = b * 2;
            i += 1;
        }
        proof {
            lemma_bit_small(8);
        }
        acc as u8
    }

    /// Interrupt-mask bytes for the master and the slave controller: bit
    /// `k` of the first is set when line `k` is masked, bit `k` of the
    /// second when line `8 + k` is.
    pub fn pic_masks(&self) -> (r: (u8, u8))
        requires
            self.wf(),
        ensures
            r.0 == mask_byte(self.masked(), 0, 8),
            r.1 == mask_byte(self.masked(), 8, 8),
    {
        (self.mask_of(0), self.mask_of(8))
    }

}

/// Builds the vector table: no handler yet, every line masked.
pub fn init_interrupt_system() -> (r: Result<InterruptDispatcher, KernelError>)
    ensures
        r matches Ok(d) && d.wf() && d.handlers() == Seq::new(VECTOR_COUNT as nat, |i: int| None::<u32>)
            && d.masked() == Seq::new(IRQ_LINES as nat, |i: int| true) && !d.in_dispatch(),
{
    Ok(InterruptDispatcher::new())
}

/// Architecture entry to interrupt set-up; see `init_interrupt_system`.
pub fn interrupt_init() -> (r: Result<InterruptDispatcher, KernelError>)
    ensures
        r matches Ok(d) && d.wf() && d.handlers() == Seq::new(VECTOR_COUNT as nat, |i: int| None::<u32>)
            && d.masked() == Seq::new(IRQ_LINES as nat, |i: int| true) && !d.in_dispatch(),
{
    init_interrupt_system()
}

} // verus!
