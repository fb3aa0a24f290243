use vstd::prelude::*;

verus! {

/// Something that can service an interrupt; `handle` reports whether the
/// interrupt was for it.
pub trait IrqHandler {
    fn handle(&mut self) -> bool;
}

/// Number of handler slots of one interrupt vector.
pub const MAX_SLOT: usize = 4;

/// An opaque, type-erased handler registration; the architecture layer
/// produces it from a handler reference and dispatches through it.
pub struct IrqHandlerBind {
    pub data: u128,
}

/// The handler slots of one interrupt vector.
pub struct IrqVector {
    pub handlers: Vec<Option<IrqHandlerBind>>,
}

impl IrqVector {
    /// A vector with all slots free.
    pub fn empty() -> (v: IrqVector)
        ensures
            v.handlers.len() == MAX_SLOT,
            forall|i: int| 0 <= i < MAX_SLOT ==> (#[trigger] v.handlers@[i]) is None,
    {
        let mut handlers: Vec<Option<IrqHandlerBind>> = Vec::new();
        handlers.push(None);
        handlers.push(None);
        handlers.push(None);
        handlers.push(None);
        IrqVector { handlers }
    }

    /// Record `h` in the first free slot and return the slot number; `None`
    /// when every slot is taken.
    pub fn add_slot(&mut self, h: IrqHandlerBind) -> (slot: Option<usize>)
        requires
            old(self).handlers.len() == MAX_SLOT,
        ensures
            final(self).handlers.len() == MAX_SLOT,
            match slot {
                Some(i) => {
                    &&& i < MAX_SLOT
                    &&& old(self).handlers@[i as int] is None
                    &&& forall|j: int| 0 <= j < i ==> (#[trigger] old(self).handlers@[j]) is Some
                    &&& final(self).handlers@ == old(self).handlers@.update(i as int, Some(h))
                },
                None => {
                    &&& *final(self) == *old(self)
                    &&& forall|j: int|
                        0 <= j < MAX_SLOT ==> (#[trigger] old(self).handlers@[j]) is Some
                },
            },
    {
        let mut i: usize = 0;
        while i < MAX_SLOT
            invariant
                i <= MAX_SLOT,
                self.handlers.len() == MAX_SLOT,
                *self == *old(self),
                forall|j: int| 0 <= j < i ==> (#[trigger] self.handlers@[j]) is Some,
            decreases MAX_SLOT - i,
        {
            if self.handlers[i].is_none() {
                self.handlers[i] = Some(h);
                return Some(i);
            }
            i = i + 1;
        }
        None
    }
}

} // verus!
