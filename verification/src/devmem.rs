//! Register read-modify-write, the value side of `/dev/mem` access.
//!
//! The mapping itself (open, mmap one 4 KiB page, volatile 32-bit access,
//! munmap) is the caller's I/O; which page is mapped, where the register
//! sits in it, and what a read-modify-write writes back are decided here.

use vstd::prelude::*;
use crate::error::Cerr;

verus! {

/// The size of one mapping.
pub const PAGE: u64 = 4096;

/// The page-aligned base that is mapped to reach `addr`.
pub fn page_of(addr: u64) -> (r: u64)
    ensures
        r == addr - addr % 4096,
        r % 4096 == 0,
{
    let r = addr & !(PAGE - 1);
    assert(addr & !4095u64 == addr - addr % 4096) by (bit_vector);
    assert((addr - addr % 4096) as u64 % 4096 == 0) by (bit_vector);
    r
}

/// The byte offset of `addr` inside its page.
pub fn page_offset(addr: u64) -> (r: usize)
    ensures
        r == addr % 4096,
        r < 4096,
{
    let r = addr & (PAGE - 1);
    assert(addr & 4095u64 == addr % 4096) by (bit_vector);
    r as usize
}

/// The value a read-modify-write stores over `v`: `set` set, `clr`
/// cleared (a bit in both ends up clear).
pub open spec fn rmw_of(v: u32, set: u32, clr: u32) -> u32 {
    (v | set) & !clr
}

/// Read-modify-write: from the outcome of reading the register, the
/// value to write back, with `set` set and `clr` cleared; a failed read
/// is handed on and nothing is written.
pub fn rmw(read: Result<u32, Cerr>, set: u32, clr: u32) -> (r: Result<u32, Cerr>)
    ensures
        match read {
            Ok(v) => r == Ok::<u32, Cerr>(rmw_of(v, set, clr)),
            Err(e) => r == Err::<u32, Cerr>(e),
        },
        r matches Ok(w) ==> forall|i: u32| #![trigger (w >> i)] i < 32 ==> ((w >> i) & 1 == 1) == (
            ((clr >> i) & 1 == 0) && (((read->Ok_0 >> i) & 1 == 1) || ((set >> i) & 1 == 1))),
{
    match read {
        Ok(v) => {
            let w = (v | set) & !clr;
            assert(forall|i: u32| #![trigger (w >> i)] i < 32 ==> ((w >> i) & 1 == 1) == (
                ((clr >> i) & 1 == 0) && (((v >> i) & 1 == 1) || ((set >> i) & 1 == 1))))
                by (bit_vector)
                requires
                    w == (v | set) & !clr,
            ;
            Ok(w)
        },
        Err(e) => Err(e),
    }
}

/// Read-modify-write that only sets `bits`.
pub fn rmw_set(read: Result<u32, Cerr>, bits: u32) -> (r: Result<u32, Cerr>)
    ensures
        match read {
            Ok(v) => r == Ok::<u32, Cerr>(v | bits),
            Err(e) => r == Err::<u32, Cerr>(e),
        },
{
    assert(forall|v: u32| #[trigger] ((v | bits) & !0u32) == v | bits) by (bit_vector);
    rmw(read, bits, 0)
}

/// Read-modify-write that only clears `bits`.
pub fn rmw_clr(read: Result<u32, Cerr>, bits: u32) -> (r: Result<u32, Cerr>)
    ensures
        match read {
            Ok(v) => r == Ok::<u32, Cerr>(v & !bits),
            Err(e) => r == Err::<u32, Cerr>(e),
        },
{
    assert(forall|v: u32| #[trigger] ((v | 0u32) & !bits) == v & !bits) by (bit_vector);
    rmw(read, 0, bits)
}

} // verus!
