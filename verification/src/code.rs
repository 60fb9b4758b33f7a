//! Machine code that hooks write: jumps, trampolines and fill, and the pages
//! they lie on.
use vstd::prelude::*;

use crate::bytes::{le64, le_bytes64, le_bytes64_read_back, push_u64};

verus! {

/// A one-byte instruction that does nothing.
pub const NOP: u8 = 0x90;

/// Bytes of an absolute jump through the word that follows it.
pub const ABS_JUMP_LEN: usize = 14;

/// Bytes of `movabs rax, imm64; jmp rax`.
pub const MOVABS_JUMP_LEN: usize = 12;

/// Size of a memory page.
pub const PAGE: u64 = 4096;

/// `jmp [rip+0]` and the target's address.
pub open spec fn abs_jump(target: int) -> Seq<u8> {
    seq![0xffu8, 0x25u8, 0u8, 0u8, 0u8, 0u8] + le_bytes64(target)
}

/// `movabs rax, target; jmp rax`.
pub open spec fn movabs_jump(target: int) -> Seq<u8> {
    seq![0x48u8, 0xb8u8] + le_bytes64(target) + seq![0xffu8, 0xe0u8]
}

/// `n` NOPs.
pub open spec fn nops(n: nat) -> Seq<u8> {
    Seq::new(n, |i: int| NOP)
}

/// An absolute jump to `target`.
pub fn absolute_jump(target: u64) -> (r: Vec<u8>)
    ensures
        r@ == abs_jump(target as int),
        r@.len() == ABS_JUMP_LEN,
{
    let mut out: Vec<u8> = Vec::new();
    out.push(0xff);
    out.push(0x25);
    out.push(0);
    out.push(0);
    out.push(0);
    out.push(0);
    assert(out@ =~= seq![0xffu8, 0x25u8, 0u8, 0u8, 0u8, 0u8]);
    push_u64(&mut out, target);
    out
}

/// A jump to `target` that goes through a register.
pub fn register_jump(target: u64) -> (r: Vec<u8>)
    ensures
        r@ == movabs_jump(target as int),
        r@.len() == MOVABS_JUMP_LEN,
{
    let mut out: Vec<u8> = Vec::new();
    out.push(0x48);
    out.push(0xb8);
    assert(out@ =~= seq![0x48u8, 0xb8u8]);
    push_u64(&mut out, target);
    out.push(0xff);
    out.push(0xe0);
    assert(out@ =~= movabs_jump(target as int));
    out
}

/// `n` NOPs.
pub fn nop_fill(n: usize) -> (r: Vec<u8>)
    ensures
        r@ == nops(n as nat),
{
    let mut out: Vec<u8> = Vec::new();
    push_nops(&mut out, n);
    assert(out@ =~= nops(n as nat));
    out
}

/// Appends `n` NOPs.
fn push_nops(out: &mut Vec<u8>, n: usize)
    ensures
        final(out)@ == old(out)@ + nops(n as nat),
{
    let mut i: usize = 0;
    assert(out@ =~= old(out)@ + nops(0));
    while i < n
        invariant
            i <= n,
            out@ == old(out)@ + nops(i as nat),
        decreases n - i,
    {
        out.push(NOP);
        i = i + 1;
        assert(out@ =~= old(out)@ + nops(i as nat));
    }
}

/// A jump that fills `len` bytes of code, the rest being NOPs.
pub fn filled(jump: Vec<u8>, len: usize) -> (r: Vec<u8>)
    requires
        jump@.len() <= len,
    ensures
        r@ == jump@ + nops((len - jump@.len()) as nat),
        r@.len() == len,
{
    let mut out: Vec<u8> = jump;
    let rest: usize = len - out.len();
    push_nops(&mut out, rest);
    out
}

/// Code that runs displaced instructions and then jumps back behind them.
pub fn trampoline(displaced: &[u8], back: Vec<u8>) -> (r: Vec<u8>)
    ensures
        r@ == displaced@ + back@,
{
    let mut out: Vec<u8> = vstd::slice::slice_to_vec(displaced);
    let mut tail: Vec<u8> = back;
    out.append(&mut tail);
    out
}

/// A jump holds its target: reading the word back gives it.
pub proof fn jumps_hold_their_target(target: u64)
    ensures
        le64(abs_jump(target as int), 6) == target,
        le64(movabs_jump(target as int), 2) == target,
{
    le_bytes64_read_back(target);
    let w = le_bytes64(target as int);
    let a = abs_jump(target as int);
    let m = movabs_jump(target as int);
    assert forall|i: int| 0 <= i < 8 implies a[6 + i] == w[i] && m[2 + i] == w[i] by {}
    assert(a[6] == w[0] && a[7] == w[1] && a[8] == w[2] && a[9] == w[3]);
    assert(a[10] == w[4] && a[11] == w[5] && a[12] == w[6] && a[13] == w[7]);
    assert(m[2] == w[0] && m[3] == w[1] && m[4] == w[2] && m[5] == w[3]);
    assert(m[6] == w[4] && m[7] == w[5] && m[8] == w[6] && m[9] == w[7]);
}

/// The pages that hold `len` bytes at `addr`: address of the first, and size.
pub open spec fn pages_of(addr: int, len: int) -> (int, int) {
    let start = addr / PAGE as int * PAGE;
    (start, (addr + len + PAGE - 1) / PAGE as int * PAGE - start)
}

/// The pages that hold `len` bytes at `addr`: address of the first, and size.
pub fn page_span(addr: u64, len: u64) -> (r: (u64, u64))
    requires
        addr + len + 4095 <= u64::MAX,
    ensures
        (r.0 as int, r.1 as int) == pages_of(addr as int, len as int),
{
    let start: u64 = addr / 4096 * 4096;
    let end: u64 = (addr + len + 4095) / 4096 * 4096;
    (start, end - start)
}

/// The pages hold the bytes, and start and end on page borders.
pub proof fn pages_hold_the_bytes(addr: int, len: int)
    requires
        0 <= addr,
        0 <= len,
    ensures
        pages_of(addr, len).0 <= addr,
        addr + len <= pages_of(addr, len).0 + pages_of(addr, len).1,
        pages_of(addr, len).0 % PAGE as int == 0,
        pages_of(addr, len).1 % PAGE as int == 0,
{
}

/// The jumps are whole instructions of 14 and 12 bytes: `jmp [rip+0]`, and
/// `movabs rax` with `jmp rax`.
pub proof fn jumps_are_whole(target: u64)
    ensures
        abs_jump(target as int).len() == 14,
        abs_jump(target as int)[0] == 0xff,
        abs_jump(target as int)[1] == 0x25,
        abs_jump(target as int)[2] == 0,
        abs_jump(target as int)[3] == 0,
        abs_jump(target as int)[4] == 0,
        abs_jump(target as int)[5] == 0,
        movabs_jump(target as int).len() == 12,
        movabs_jump(target as int)[0] == 0x48,
        movabs_jump(target as int)[1] == 0xb8,
        movabs_jump(target as int)[10] == 0xff,
        movabs_jump(target as int)[11] == 0xe0,
        ABS_JUMP_LEN == 14,
        MOVABS_JUMP_LEN == 12,
{
    le_bytes64_read_back(target);
}

/// Fill does nothing: every byte of it is the one-byte NOP.
pub proof fn fill_does_nothing(n: nat, i: int)
    requires
        0 <= i < n,
    ensures
        nops(n).len() == n,
        nops(n)[i] == 0x90,
{
}

/// No more pages are named than the bytes reach.
pub proof fn no_page_too_many(addr: int, len: int)
    requires
        0 <= addr,
        0 < len,
    ensures
        pages_of(addr, len).0 > addr - 4096,
        pages_of(addr, len).0 + pages_of(addr, len).1 < addr + len + 4096,
        pages_of(addr, len).0 % 4096 == 0,
        pages_of(addr, len).1 % 4096 == 0,
{
}

} // verus!
