use vstd::prelude::*;
use crate::error::Chip8Error;

verus! {

/// Size of the addressable memory in bytes.
pub const MEMORY_SIZE: usize = 4096;

/// The 4096-byte addressable memory of the machine.
pub struct Ram {
    mem: Vec<u8>,
}

impl View for Ram {
    type V = Seq<u8>;

    closed spec fn view(&self) -> Seq<u8> {
        self.mem@
    }
}

impl Ram {
    /// The memory is exactly 4096 bytes long.
    pub open spec fn wf(&self) -> bool {
        self@.len() == 4096
    }

    /// A memory of 4096 zero bytes.
    pub fn new() -> (r: Ram)
        ensures
            r.wf(),
            r@ == Seq::new(4096, |a: int| 0u8),
    {
        let mem: Vec<u8> = vec![0u8; MEMORY_SIZE];
        let r = Ram { mem };
        assert(r@ =~= Seq::new(4096, |a: int| 0u8));
        r
    }

    /// The byte at `addr`, or an addressing fault when `addr` is 4096 or above.
    pub fn read_byte(&self, addr: usize) -> (r: Result<u8, Chip8Error>)
        requires
            self.wf(),
        ensures
            addr < 4096 ==> r == Ok::<u8, Chip8Error>(self@[addr as int]),
            addr >= 4096 ==> r == Err::<u8, Chip8Error>(Chip8Error::AddressingFault { addr }),
    {
        if addr < MEMORY_SIZE {
            Ok(self.mem[addr])
        } else {
            Err(Chip8Error::AddressingFault { addr })
        }
    }

    /// Stores `value` at `addr`; an address of 4096 or above is a fault and
    /// leaves the memory unchanged.
    pub fn write_byte(&mut self, addr: usize, value: u8) -> (r: Result<(), Chip8Error>)
        requires
            old(self).wf(),
        ensures
            final(self).wf(),
            addr < 4096 ==> r is Ok && final(self)@ == old(self)@.update(addr as int, value),
            addr >= 4096 ==> r == Err::<(), Chip8Error>(Chip8Error::AddressingFault { addr })
                && final(self)@ == old(self)@,
    {
        if addr < MEMORY_SIZE {
            self.mem.set(addr, value);
            Ok(())
        } else {
            Err(Chip8Error::AddressingFault { addr })
        }
    }

    /// A copy of the whole memory image.
    pub fn get_memory(&self) -> (r: Vec<u8>)
        ensures
            r@ == self@,
    {
        self.mem.clone()
    }
}

} // verus!
