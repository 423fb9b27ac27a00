//! The flat physical memory: a 2^16-byte array addressed by a 16-bit
//! physical address. The paging core never inspects its contents; a
//! caller combines a translated address with these plain accesses.

use vstd::prelude::*;

verus! {

/// Byte-addressable physical memory of 65536 bytes.
pub struct Memory {
    data: Vec<u8>,
}

impl View for Memory {
    type V = Seq<u8>;

    closed spec fn view(&self) -> Seq<u8> {
        self.data@
    }
}

impl Memory {
    /// The backing array covers the whole 16-bit physical address space.
    pub open spec fn wf(&self) -> bool {
        self@.len() == 0x10000
    }

    /// Creates memory with every byte zero.
    pub fn new() -> (m: Memory)
        ensures
            m.wf(),
            forall|i: int| 0 <= i < m@.len() ==> m@[i] == 0,
    {
        let mut data: Vec<u8> = Vec::new();
        while data.len() < 0x10000
            invariant
                forall|i: int| 0 <= i < data@.len() ==> data@[i] == 0,
                data@.len() <= 0x10000,
            decreases 0x10000 - data@.len(),
        {
            data.push(0);
        }
        Memory { data }
    }

    /// Reads the byte at a physical address.
    pub fn load(&self, address: u16) -> (value: u8)
        requires
            self.wf(),
        ensures
            value == self@[address as int],
    {
        self.data[address as usize]
    }

    /// Writes the byte at a physical address.
    pub fn store(&mut self, address: u16, value: u8)
        requires
            old(self).wf(),
        ensures
            final(self).wf(),
            final(self)@ == old(self)@.update(address as int, value),
    {
        self.data[address as usize] = value;
    }
}

} // verus!
