//! The handle through which target memory is read and written, and a
//! verified in-process implementation of it.
//!
//! Every transport failure is reported as an `Err` carrying text; the codec
//! layer surfaces such text inside the affected variable's value.

use vstd::prelude::*;
use vstd::string::StringExecFns;

use crate::bytes::{le_bytes, le_val, lemma_le_val_bound, pow256};

verus! {

/// Every address of `address .. address + len` exists in the memory map
/// (and the range does not run past the address space).
pub open spec fn range_in_mem(m: Map<u32, u8>, address: u32, len: nat) -> bool {
    address + len <= 0x100000000 && (forall|i: int|
        0 <= i < len ==> m.dom().contains(#[trigger] ((address + i) as u32)))
}

/// The `len` bytes of the memory map starting at `address`.
pub open spec fn bytes_at(m: Map<u32, u8>, address: u32, len: nat) -> Seq<u8> {
    Seq::new(len, |i: int| m[(address + i) as u32])
}

/// The memory map after writing `bs` at `address`: the domain is unchanged
/// and the written range carries the new bytes.
pub open spec fn mem_written(m: Map<u32, u8>, address: u32, bs: Seq<u8>) -> Map<u32, u8> {
    Map::new(
        |a: u32| m.dom().contains(a),
        |a: u32|
            if address <= a && a < address + bs.len() {
                bs[a - address]
            } else {
                m[a]
            },
    )
}

/// Writing bytes changes no address's existence, and reading the written
/// range back yields exactly the written bytes.
pub proof fn lemma_write_read_back(m: Map<u32, u8>, address: u32, bs: Seq<u8>)
    requires
        range_in_mem(m, address, bs.len()),
    ensures
        mem_written(m, address, bs).dom() == m.dom(),
        range_in_mem(mem_written(m, address, bs), address, bs.len()),
        bytes_at(mem_written(m, address, bs), address, bs.len()) == bs,
{
    let w = mem_written(m, address, bs);
    assert(w.dom() =~= m.dom());
    assert(bytes_at(w, address, bs.len()) =~= bs);
}

/// Typed access to the memory of a halted target.
///
/// The abstract map [`MemoryInterface::mem`] gives the bytes the handle can
/// reach; reads report exactly those bytes and writes update exactly the
/// addressed range. A read or write of a range that is not fully mapped
/// fails and leaves the memory unchanged.
pub trait MemoryInterface: Sized {
    /// The bytes of target memory this handle can reach.
    spec fn mem(&self) -> Map<u32, u8>;

    /// Reads the byte at `address`.
    fn read_word_8(&mut self, address: u32) -> (r: Result<u8, String>)
        ensures
            final(self).mem() == old(self).mem(),
            r is Ok <==> old(self).mem().dom().contains(address),
            r is Ok ==> r.unwrap() == old(self).mem()[address],
    ;

    /// Reads the little-endian 32-bit word at `address`.
    fn read_word_32(&mut self, address: u32) -> (r: Result<u32, String>)
        ensures
            final(self).mem() == old(self).mem(),
            r is Ok <==> range_in_mem(old(self).mem(), address, 4),
            r is Ok ==> r.unwrap() as nat == le_val(bytes_at(old(self).mem(), address, 4)),
    ;

    /// Reads `len` bytes starting at `address`.
    fn read_bytes(&mut self, address: u32, len: usize) -> (r: Result<Vec<u8>, String>)
        ensures
            final(self).mem() == old(self).mem(),
            r is Ok <==> range_in_mem(old(self).mem(), address, len as nat),
            r is Ok ==> r.unwrap()@ == bytes_at(old(self).mem(), address, len as nat),
    ;

    /// Writes the byte `value` at `address`.
    fn write_word_8(&mut self, address: u32, value: u8) -> (r: Result<(), String>)
        ensures
            r is Ok <==> old(self).mem().dom().contains(address),
            r is Ok ==> final(self).mem() == mem_written(old(self).mem(), address, seq![value]),
            r is Err ==> final(self).mem() == old(self).mem(),
    ;

    /// Writes the little-endian 32-bit word `value` at `address`.
    fn write_word_32(&mut self, address: u32, value: u32) -> (r: Result<(), String>)
        ensures
            r is Ok <==> range_in_mem(old(self).mem(), address, 4),
            r is Ok ==> final(self).mem() == mem_written(
                old(self).mem(),
                address,
                le_bytes(value as nat, 4),
            ),
            r is Err ==> final(self).mem() == old(self).mem(),
    ;

    /// Writes all of `data` starting at `address`.
    fn write_bytes(&mut self, address: u32, data: &Vec<u8>) -> (r: Result<(), String>)
        ensures
            r is Ok <==> range_in_mem(old(self).mem(), address, data@.len()),
            r is Ok ==> final(self).mem() == mem_written(old(self).mem(), address, data@),
            r is Err ==> final(self).mem() == old(self).mem(),
    ;
}

/// A contiguous span of simulated target memory starting at a base address.
///
/// It implements [`MemoryInterface`] exactly as the trait's contracts
/// describe, and stands in for a live probe in tests.
pub struct SimulatedMemory {
    base: u32,
    data: Vec<u8>,
}

impl SimulatedMemory {
    /// Creates a span holding `data` at addresses `base` upward.
    pub fn new(base: u32, data: Vec<u8>) -> (r: Self)
        ensures
            r.mem() == Map::<u32, u8>::new(
                |a: u32| base <= a && a - base < data@.len(),
                |a: u32| data@[a - base],
            ),
    {
        let r = SimulatedMemory { base, data };
        proof {
            assert(r.mem() =~= Map::<u32, u8>::new(
                |a: u32| base <= a && a - base < data@.len(),
                |a: u32| data@[a - base],
            ));
        }
        r
    }
}

impl MemoryInterface for SimulatedMemory {
    closed spec fn mem(&self) -> Map<u32, u8> {
        Map::new(
            |a: u32| self.base <= a && a - self.base < self.data@.len(),
            |a: u32| self.data@[a - self.base],
        )
    }

    fn read_word_8(&mut self, address: u32) -> (r: Result<u8, String>) {
        if address >= self.base {
            let idx_32 = address - self.base;
            let idx = idx_32 as usize;
            if idx < self.data.len() {
                return Ok(self.data[idx]);
            }
        }
        Err("read outside the simulated memory".to_owned())
    }

    fn read_word_32(&mut self, address: u32) -> (r: Result<u32, String>) {
        match self.read_bytes(address, 4) {
            Ok(bs) => {
                let v = crate::bytes::le_val_u128(&bs);
                proof {
                    lemma_le_val_bound(bs@);
                    reveal_with_fuel(pow256, 5);
                }
                Ok(v as u32)
            },
            Err(e) => Err(e),
        }
    }

    fn read_bytes(&mut self, address: u32, len: usize) -> (r: Result<Vec<u8>, String>) {
        let a64 = address as u64;
        let l64 = len as u64;
        if l64 > 0x100000000u64 {
            return Err("read outside the simulated memory".to_owned());
        }
        if a64 + l64 > 0x100000000u64 {
            return Err("read outside the simulated memory".to_owned());
        }
        if len == 0 {
            let out: Vec<u8> = Vec::new();
            proof {
                assert(out@ =~= bytes_at(self.mem(), address, 0));
            }
            return Ok(out);
        }
        if address < self.base {
            proof {
                assert(!self.mem().dom().contains((address + 0) as u32));
            }
            return Err("read outside the simulated memory".to_owned());
        }
        let idx_32 = address - self.base;
        let idx = idx_32 as usize;
        if (idx as u64) + l64 > self.data.len() as u64 {
            proof {
                let last = (len - 1) as int;
                assert(!self.mem().dom().contains((address + last) as u32));
            }
            return Err("read outside the simulated memory".to_owned());
        }
        let mut out: Vec<u8> = Vec::new();
        let mut i: usize = 0;
        while i < len
            invariant
                0 <= i <= len,
                address == self.base + idx,
                idx + len <= self.data@.len(),
                address + len <= 0x100000000,
                out@.len() == i,
                forall|j: int| 0 <= j < i ==> out@[j] == self.data@[idx + j],
            decreases len - i,
        {
            out.push(self.data[idx + i]);
            i = i + 1;
        }
        proof {
            assert(out@ =~= bytes_at(self.mem(), address, len as nat));
        }
        Ok(out)
    }

    fn write_word_8(&mut self, address: u32, value: u8) -> (r: Result<(), String>) {
        if address >= self.base {
            let idx_32 = address - self.base;
            let idx = idx_32 as usize;
            if idx < self.data.len() {
                self.data[idx] = value;
                proof {
                    assert(self.mem() =~= mem_written(old(self).mem(), address, seq![value]));
                }
                return Ok(());
            }
        }
        Err("write outside the simulated memory".to_owned())
    }

    fn write_word_32(&mut self, address: u32, value: u32) -> (r: Result<(), String>) {
        let bs = crate::bytes::le_bytes_u128(value as u128, 4);
        proof {
            crate::bytes::lemma_le_bytes_len(value as nat, 4);
        }
        self.write_bytes(address, &bs)
    }

    fn write_bytes(&mut self, address: u32, data: &Vec<u8>) -> (r: Result<(), String>) {
        let a64 = address as u64;
        let l64 = data.len() as u64;
        if l64 > 0x100000000u64 {
            return Err("write outside the simulated memory".to_owned());
        }
        if a64 + l64 > 0x100000000u64 {
            return Err("write outside the simulated memory".to_owned());
        }
        if data.len() == 0 {
            proof {
                assert(self.mem() =~= mem_written(self.mem(), address, data@));
            }
            return Ok(());
        }
        if address < self.base {
            proof {
                assert(!self.mem().dom().contains((address + 0) as u32));
            }
            return Err("write outside the simulated memory".to_owned());
        }
        let idx_32 = address - self.base;
        let idx = idx_32 as usize;
        if (idx as u64) + l64 > self.data.len() as u64 {
            proof {
                let last = (data@.len() - 1) as int;
                assert(!self.mem().dom().contains((address + last) as u32));
            }
            return Err("write outside the simulated memory".to_owned());
        }
        let len = data.len();
        let mut i: usize = 0;
        while i < len
            invariant
                0 <= i <= len,
                len == data@.len(),
                address == self.base + idx,
                idx + len <= self.data@.len(),
                address + len <= 0x100000000,
                self.base == old(self).base,
                self.data@.len() == old(self).data@.len(),
                forall|j: int| 0 <= j < i ==> self.data@[idx + j] == data@[j],
                forall|j: int|
                    0 <= j < self.data@.len() && !(idx <= j < idx + i) ==> self.data@[j] == old(
                        self,
                    ).data@[j],
            decreases len - i,
        {
            self.data[idx + i] = data[i];
            i = i + 1;
        }
        proof {
            assert(self.mem() =~= mem_written(old(self).mem(), address, data@));
        }
        Ok(())
    }
}

} // verus!
