use core::marker::PhantomData;
use vstd::prelude::*;

verus! {

/// Typed write access to a device register or port.  Implementations live
/// with the architecture layer, since the access itself is hardware I/O.
pub trait WriteIo<T> {
    fn write(&mut self, t: T);
}

/// Typed read access to a device register or port.
pub trait ReadIo<T> {
    fn read(&self) -> T;
}

/// An x86 I/O-space port carrying values of type `T`.
pub struct PortIo<T> {
    pub port: u16,
    pub data: PhantomData<T>,
}

impl<T> PortIo<T> {
    pub fn new(port: u16) -> (p: Self)
        ensures
            p.port == port,
    {
        PortIo { port, data: PhantomData }
    }
}

} // verus!
