//! Minimal ELF64 reader used to locate code, vtables and GOT slots inside a
//! game module *by name* instead of by hard-coded link-time address.
//!
//! A stale code address merely fails a byte check, but a stale vtable slot
//! address still points at a valid pointer of some other class. So nothing is
//! addressed absolutely: classes are found through the Itanium C++ ABI RTTI
//! (typeinfo name string, typeinfo object, vtable), imported functions through
//! their relocation and symbol name, and raw code through instruction
//! signatures.
//!
//! Reads come from the module *file* and yield link-time addresses; the caller
//! adds the module's load base.
use vstd::prelude::*;

use vstd::utf8::encode_utf8;

use crate::bytes::{
    c_prefix, c_string, holds, increasing, insert_sorted, le16, le32, le64, occurs_at, rd_i64,
    rd_u16, rd_u32, rd_u64, same_bytes, signed64,
};
use crate::scan::{
    file_bytes, find_all, hit, scan_invents_nothing, scan_misses_nothing, slice_at, window_views,
    windows, windows_from, Extent,
};

verus! {

pub const PT_LOAD: u32 = 1;

pub const PT_DYNAMIC: u32 = 2;

pub const PF_X: u32 = 1;

pub const PF_W: u32 = 2;

pub const DT_PLTRELSZ: u64 = 2;

pub const DT_STRTAB: u64 = 5;

pub const DT_SYMTAB: u64 = 6;

pub const DT_RELA: u64 = 7;

pub const DT_RELASZ: u64 = 8;

pub const DT_SYMENT: u64 = 11;

pub const DT_JMPREL: u64 = 23;

pub const R_X86_64_GLOB_DAT: u64 = 6;

pub const R_X86_64_JUMP_SLOT: u64 = 7;

pub const R_X86_64_RELATIVE: u64 = 8;

/// Size of one relocation record.
pub const RELA_ENT: u64 = 24;

/// How many whole relocation records one read covers.
pub const RELA_CHUNK: u64 = 43_690;

/// How many bytes those records take.
pub const RELA_READ: u64 = 1_048_560;

/// How many bytes of a symbol name are read.
pub const NAME_BYTES: usize = 96;

/// Which segments a scan should look at.
#[derive(Copy, Clone, PartialEq, Eq, Structural)]
pub enum Access {
    /// read-only, non-executable: .rodata & friends (RTTI name strings)
    Rodata,
    /// executable: .text (instruction signatures)
    Code,
}

impl Access {
    /// Whether segments with these flags are wanted.
    pub open spec fn wants(self, flags: u32) -> bool {
        match self {
            Access::Rodata => flags & PF_X == 0 && flags & PF_W == 0,
            Access::Code => flags & PF_X != 0,
        }
    }

    /// Whether segments with these flags are wanted.
    pub fn matches(self, flags: u32) -> (r: bool)
        ensures
            r == self.wants(flags),
    {
        match self {
            Access::Rodata => flags & PF_X == 0 && flags & PF_W == 0,
            Access::Code => flags & PF_X != 0,
        }
    }
}

/// A loadable segment: file offset, address, size in the file, size in memory
/// and access flags.
#[derive(Copy, Clone)]
pub struct Seg {
    pub off: u64,
    pub va: u64,
    pub fsz: u64,
    pub msz: u64,
    pub flags: u32,
}

/// What a parsed module holds.
pub struct ElfImage {
    pub file: Seq<u8>,
    pub segs: Seq<Seg>,
    /// (address, size) of every RELA table: DT_RELA and DT_JMPREL.
    pub rela: Seq<(u64, u64)>,
    pub symtab: u64,
    pub strtab: u64,
    pub syment: u64,
}

/// File offset of an address, through the first segment from `i` on whose file
/// contents hold it.
pub open spec fn seg_offset(segs: Seq<Seg>, va: int, i: int) -> Option<int>
    decreases segs.len() - i,
{
    if i < 0 || i >= segs.len() {
        None
    } else if segs[i].va <= va < segs[i].va + segs[i].fsz {
        Some(segs[i].off + (va - segs[i].va))
    } else {
        seg_offset(segs, va, i + 1)
    }
}

/// How many file-backed bytes the first segment from `i` on that holds an
/// address has from there to its end.
pub open spec fn seg_room(segs: Seq<Seg>, va: int, i: int) -> int
    decreases segs.len() - i,
{
    if i < 0 || i >= segs.len() {
        0
    } else if segs[i].va <= va < segs[i].va + segs[i].fsz {
        segs[i].va + segs[i].fsz - va
    } else {
        seg_room(segs, va, i + 1)
    }
}

/// The file contents of a segment back all of `len` bytes at an address.
pub open spec fn backs(s: Seg, va: int, len: int) -> bool {
    s.va <= va < s.va + s.fsz && va + len <= s.va + s.fsz
}

/// The `len` bytes at an address, through the first segment from `i` on that
/// backs them all with bytes that the file holds.
pub open spec fn seg_bytes(file: Seq<u8>, segs: Seq<Seg>, va: int, len: int, i: int) -> Option<
    Seq<u8>,
>
    decreases segs.len() - i,
{
    if i < 0 || i >= segs.len() {
        None
    } else if backs(segs[i], va, len) && segs[i].off + (va - segs[i].va) + len <= file.len() {
        let off = segs[i].off + (va - segs[i].va);
        Some(file.subrange(off, off + len))
    } else {
        seg_bytes(file, segs, va, len, i + 1)
    }
}

/// The wanted ones of the first `n` segments, as stretches of the file.
pub open spec fn wanted(segs: Seq<Seg>, want: Access, n: int) -> Seq<Extent>
    decreases n,
{
    if n <= 0 {
        Seq::empty()
    } else if want.wants(segs[n - 1].flags) {
        wanted(segs, want, n - 1).push(
            Extent { off: segs[n - 1].off, va: segs[n - 1].va, len: segs[n - 1].fsz },
        )
    } else {
        wanted(segs, want, n - 1)
    }
}

/// One relocation record: slot, type-and-symbol word, addend.
pub struct RelaEntry {
    pub slot: int,
    pub info: int,
    pub addend: int,
}

/// The dynamic-section entries that count: those before the first null tag.
pub open spec fn dyn_count(b: Seq<u8>, i: int) -> int
    decreases b.len() / 16 - i,
{
    if i < 0 || i >= b.len() / 16 || le64(b, 16 * i) == 0 {
        i
    } else {
        dyn_count(b, i + 1)
    }
}

/// The value of the last of the first `n` dynamic entries with this tag.
pub open spec fn dyn_value(b: Seq<u8>, n: int, tag: u64, default: int) -> int
    decreases n,
{
    if n <= 0 {
        default
    } else if le64(b, 16 * (n - 1)) == tag {
        le64(b, 16 * (n - 1) + 8)
    } else {
        dyn_value(b, n - 1, tag, default)
    }
}

/// File offset of program header `i`.
pub open spec fn ph_at(file: Seq<u8>, i: int) -> int {
    le64(file, 32) + i * le16(file, 54)
}

/// The loadable segments among the first `n` program headers.
pub open spec fn load_segs(file: Seq<u8>, n: int) -> Seq<Seg>
    decreases n,
{
    if n <= 0 {
        Seq::empty()
    } else {
        let at = ph_at(file, n - 1);
        if le32(file, at) == PT_LOAD {
            load_segs(file, n - 1).push(
                Seg {
                    off: le64(file, at + 8) as u64,
                    va: le64(file, at + 16) as u64,
                    fsz: le64(file, at + 32) as u64,
                    msz: le64(file, at + 40) as u64,
                    flags: le32(file, at + 4) as u32,
                },
            )
        } else {
            load_segs(file, n - 1)
        }
    }
}

/// Offset and size of the last dynamic section among the first `n` program
/// headers.
pub open spec fn dynamic_of(file: Seq<u8>, n: int) -> Option<(int, int)>
    decreases n,
{
    if n <= 0 {
        None
    } else {
        let at = ph_at(file, n - 1);
        if le32(file, at) == PT_DYNAMIC {
            Some((le64(file, at + 8), le64(file, at + 32)))
        } else {
            dynamic_of(file, n - 1)
        }
    }
}

/// The file starts with a 64-bit ELF header whose program headers it holds.
pub open spec fn elf_header(file: Seq<u8>) -> bool {
    &&& file.len() >= 64
    &&& file[0] == 0x7f
    &&& file[1] == 0x45
    &&& file[2] == 0x4c
    &&& file[3] == 0x46
    &&& file[4] == 2
    &&& le16(file, 54) >= 56
    &&& forall|i: int|
        0 <= i < le16(file, 56) ==> #[trigger] ph_at(file, i) + 56 <= file.len()
}

/// The relocation tables that a dynamic section names.
pub open spec fn rela_tables(b: Seq<u8>, n: int) -> Seq<(u64, u64)> {
    let rela = dyn_value(b, n, DT_RELA, 0) as u64;
    let relasz = dyn_value(b, n, DT_RELASZ, 0) as u64;
    let jmprel = dyn_value(b, n, DT_JMPREL, 0) as u64;
    let pltrelsz = dyn_value(b, n, DT_PLTRELSZ, 0) as u64;
    (if rela != 0 && relasz != 0 {
        seq![(rela, relasz)]
    } else {
        Seq::empty()
    }) + (if jmprel != 0 && pltrelsz != 0 {
        seq![(jmprel, pltrelsz)]
    } else {
        Seq::empty()
    })
}

/// What parsing a file gives, or `None` for anything that is not a 64-bit ELF
/// with segments and a dynamic section.
pub open spec fn parse_elf(file: Seq<u8>) -> Option<ElfImage> {
    let phnum = le16(file, 56);
    if !elf_header(file) || load_segs(file, phnum).len() == 0 {
        None
    } else {
        match dynamic_of(file, phnum) {
            None => None,
            Some((off, size)) => match file_bytes(file, off, size) {
                None => None,
                Some(b) => {
                    let n = dyn_count(b, 0);
                    Some(
                        ElfImage {
                            file,
                            segs: load_segs(file, phnum),
                            rela: rela_tables(b, n),
                            symtab: dyn_value(b, n, DT_SYMTAB, 0) as u64,
                            strtab: dyn_value(b, n, DT_STRTAB, 0) as u64,
                            syment: dyn_value(b, n, DT_SYMENT, 24) as u64,
                        },
                    )
                },
            },
        }
    }
}

impl ElfImage {
    /// File offset of an address.
    pub open spec fn v2o(self, va: int) -> Option<int> {
        if 0 <= va <= u64::MAX {
            seg_offset(self.segs, va, 0)
        } else {
            None
        }
    }

    /// The `len` bytes at an address, if the file contents of a segment back
    /// all of them.
    pub open spec fn read_va(self, va: int, len: int) -> Option<Seq<u8>> {
        if 0 <= va <= u64::MAX && 0 <= len {
            seg_bytes(self.file, self.segs, va, len, 0)
        } else {
            None
        }
    }

    /// The bytes at an address up to the end of its segment's file contents,
    /// `max` at most.
    pub open spec fn read_up_to(self, va: int, max: int) -> Option<Seq<u8>> {
        let room = seg_room(self.segs, va, 0);
        match self.v2o(va) {
            None => None,
            Some(o) => file_bytes(
                self.file,
                o,
                if room < max {
                    room
                } else {
                    max
                },
            ),
        }
    }

    /// The bytes of relocation table `t`.
    pub open spec fn table_bytes(self, t: int) -> Option<Seq<u8>> {
        match self.v2o(self.rela[t].0 as int) {
            None => None,
            Some(o) => file_bytes(self.file, o, self.rela[t].1 as int),
        }
    }

    /// The word at an address.
    pub open spec fn u64_va(self, va: int) -> Option<int> {
        match self.read_va(va, 8) {
            None => None,
            Some(b) => Some(le64(b, 0)),
        }
    }

    /// The signed word at an address.
    pub open spec fn i64_va(self, va: int) -> Option<int> {
        match self.read_va(va, 8) {
            None => None,
            Some(b) => Some(signed64(le64(b, 0))),
        }
    }

    /// The address lies in an executable segment.
    pub open spec fn is_exec(self, va: int) -> bool {
        exists|i: int|
            0 <= i < self.segs.len() && (#[trigger] self.segs[i]).flags & PF_X != 0
                && self.segs[i].va <= va < self.segs[i].va + self.segs[i].msz
    }

    /// The scan windows over the wanted segments.
    pub open spec fn windows(self, want: Access, overlap: nat) -> Seq<(u64, Seq<u8>)> {
        windows_from(self.file, wanted(self.segs, want, self.segs.len() as int), overlap, 0)
    }

    /// `needle` stands at address `v` in the wanted segments, within reach of
    /// a scan.
    pub open spec fn hit(self, needle: Seq<u8>, want: Access, v: int) -> bool {
        hit(self.file, wanted(self.segs, want, self.segs.len() as int), needle, v)
    }

    /// Record `e` of relocation table `t`, as far as the file holds the read
    /// that covers it.
    pub open spec fn entry(self, t: int, e: int) -> Option<RelaEntry> {
        let size = self.rela[t].1 as int;
        match self.v2o(self.rela[t].0 as int) {
            None => None,
            Some(base) => {
                if 0 <= e && RELA_ENT * (e + 1) <= size && base + read_end(size, e)
                    <= self.file.len() {
                    Some(record_at(self.file, base + RELA_ENT * e))
                } else {
                    None
                }
            },
        }
    }

    /// A relative relocation makes `slot` point at `target`.
    pub open spec fn points_at(self, slot: int, target: int) -> bool {
        exists|t: int, e: int|
            0 <= t < self.rela.len() && (#[trigger] self.entry(t, e) matches Some(r)
                && r.info % 0x1_0000_0000 == R_X86_64_RELATIVE && r.addend == target && r.slot
                == slot)
    }

    /// The bytes of symbol `idx`'s name.
    pub open spec fn symname(self, idx: int) -> Option<Seq<u8>> {
        if self.symtab == 0 || self.strtab == 0 {
            None
        } else {
            match self.read_va(self.symtab + idx * self.syment, 4) {
                None => None,
                Some(sym) => match self.read_up_to(
                    self.strtab + le32(sym, 0),
                    NAME_BYTES as int,
                ) {
                    None => None,
                    Some(buf) => c_prefix(buf, 0),
                },
            }
        }
    }

    /// The relocation record names an imported symbol of this name.
    pub open spec fn names(self, r: RelaEntry, sym: Seq<u8>) -> bool {
        let ty = r.info % 0x1_0000_0000;
        (ty == R_X86_64_JUMP_SLOT || ty == R_X86_64_GLOB_DAT) && self.symname(
            r.info / 0x1_0000_0000,
        ) == Some(sym)
    }

    /// The slot of the first record of a table, from `e` on, that names `sym`.
    pub open spec fn table_slot(self, table: Seq<u8>, sym: Seq<u8>, e: int) -> Option<int>
        decreases table.len() - RELA_ENT * e,
    {
        if e < 0 || RELA_ENT * (e + 1) > table.len() {
            None
        } else if self.names(record_at(table, RELA_ENT * e), sym) {
            Some(record_at(table, RELA_ENT * e).slot)
        } else {
            self.table_slot(table, sym, e + 1)
        }
    }

    /// The slot of the first record, in the tables from `t` on, that names
    /// `sym`. A table that the file does not hold ends the search.
    pub open spec fn slot_from(self, sym: Seq<u8>, t: int) -> Option<int>
        decreases self.rela.len() - t,
    {
        if t < 0 || t >= self.rela.len() {
            None
        } else {
            match self.table_bytes(t) {
                None => None,
                Some(table) => match self.table_slot(table, sym, 0) {
                    Some(slot) => Some(slot),
                    None => self.slot_from(sym, t + 1),
                },
            }
        }
    }

    /// `v` is the address of the class-name string: a whole NUL-terminated
    /// entry of the read-only segments.
    pub open spec fn is_name(self, mangled: Seq<u8>, v: int) -> bool {
        v <= u64::MAX && self.hit(name_needle(mangled), Access::Rodata, v - 1)
    }

    /// `ti` is the address of a typeinfo object with this class name: a slot
    /// eight bytes into it points at the name.
    pub open spec fn is_typeinfo(self, mangled: Seq<u8>, ti: int) -> bool {
        exists|name: int|
            #![trigger self.points_at(ti + 8, name)]
            0 <= ti && self.is_name(mangled, name) && self.points_at(ti + 8, name)
    }

    /// `t` is the typeinfo slot of a vtable of the class, at offset `otop`
    /// from the top of the object: the slot points at the typeinfo, code
    /// stands in the first virtual slot, and a small non-positive
    /// offset-to-top stands just below.
    pub open spec fn is_vtable(self, mangled: Seq<u8>, t: int, otop: int) -> bool {
        self.is_class_slot(mangled, t) && vtable_shape(self, t, otop)
    }

    /// The slot at `t` points at a typeinfo object of the class.
    pub open spec fn is_class_slot(self, mangled: Seq<u8>, t: int) -> bool {
        exists|ti: int|
            #![trigger self.points_at(t, ti)]
            self.is_typeinfo(mangled, ti) && self.points_at(t, ti)
    }

    /// The code that virtual `idx` of the vtable at `t` points at.
    pub open spec fn vfn(self, t: int, idx: int) -> Option<int> {
        match self.u64_va(t + 8 + 8 * idx) {
            Some(va) => if self.is_exec(va) {
                Some(va)
            } else {
                None
            },
            None => None,
        }
    }
}

/// A class name between two NULs.
pub open spec fn name_needle(mangled: Seq<u8>) -> Seq<u8> {
    seq![0u8] + mangled + seq![0u8]
}

/// The relocation record at a byte offset.
pub open spec fn record_at(b: Seq<u8>, at: int) -> RelaEntry {
    RelaEntry { slot: le64(b, at), info: le64(b, at + 8), addend: le64(b, at + 16) }
}

/// Where the read that covers record `e` of a table ends.
pub open spec fn read_end(size: int, e: int) -> int {
    let end = (e / RELA_CHUNK as int + 1) * RELA_READ;
    if end < size {
        end
    } else {
        size
    }
}

/// A game module (`client.so`, `engine.so`, `launcher.so`) read from disk.
///
/// Everything is resolved against the *file*, then rebased onto the module's
/// load address by the caller.
pub struct Module {
    file: Vec<u8>,
    segs: Vec<Seg>,
    rela: Vec<(u64, u64)>,
    symtab: u64,
    strtab: u64,
    syment: u64,
}

impl View for Module {
    type V = ElfImage;

    closed spec fn view(&self) -> ElfImage {
        ElfImage {
            file: self.file@,
            segs: self.segs@,
            rela: self.rela@,
            symtab: self.symtab,
            strtab: self.strtab,
            syment: self.syment,
        }
    }
}

proof fn le_bounds(b: Seq<u8>, at: int)
    ensures
        0 <= le16(b, at) <= 0xffff,
        0 <= le32(b, at) <= 0xffff_ffff,
        0 <= le64(b, at) <= 0xffff_ffff_ffff_ffff,
{
}

proof fn le_sub(b: Seq<u8>, off: int, len: int, at: int)
    requires
        0 <= off,
        0 <= at,
        off + len <= b.len(),
    ensures
        at + 2 <= len ==> le16(b.subrange(off, off + len), at) == le16(b, off + at),
        at + 4 <= len ==> le32(b.subrange(off, off + len), at) == le32(b, off + at),
        at + 8 <= len ==> le64(b.subrange(off, off + len), at) == le64(b, off + at),
{
}

impl Module {
    /// Parses an ELF64 shared object: its segments, RELA tables and symbol
    /// table. Returns `None` for anything that is not a 64-bit ELF.
    pub fn open(file: Vec<u8>) -> (r: Option<Module>)
        ensures
            match r {
                Some(m) => parse_elf(file@) == Some(m@),
                None => parse_elf(file@) is None,
            },
    {
        if file.len() < 64 {
            return None;
        }
        if file[0] != 0x7f || file[1] != 0x45 || file[2] != 0x4c || file[3] != 0x46 || file[4]
            != 2 {
            return None;
        }
        let phoff: u64 = rd_u64(file.as_slice(), 32);
        let phentsize: u64 = rd_u16(file.as_slice(), 54) as u64;
        let phnum: u64 = rd_u16(file.as_slice(), 56) as u64;
        if phentsize < 56 {
            return None;
        }
        let mut segs: Vec<Seg> = Vec::new();
        let mut dynamic: Option<(u64, u64)> = None;
        let mut i: u64 = 0;
        while i < phnum
            invariant
                i <= phnum,
                file.len() >= 64,
                phoff == le64(file@, 32),
                phentsize == le16(file@, 54),
                phnum == le16(file@, 56),
                phnum <= 0xffff,
                phentsize <= 0xffff,
                segs@ == load_segs(file@, i as int),
                match dynamic {
                    Some((o, s)) => dynamic_of(file@, i as int) == Some((o as int, s as int)),
                    None => dynamic_of(file@, i as int) is None,
                },
                forall|j: int| 0 <= j < i ==> #[trigger] ph_at(file@, j) + 56 <= file.len(),
            decreases phnum - i,
        {
            assert(i * phentsize <= 0xffff * 0xffff) by (nonlinear_arith)
                requires
                    i <= 0xffff,
                    phentsize <= 0xffff,
            ;
            let step: u64 = i * phentsize;
            assert(ph_at(file@, i as int) == phoff + step);
            if phoff > u64::MAX - step {
                assert(ph_at(file@, i as int) + 56 > file.len());
                return None;
            }
            let at: u64 = phoff + step;
            let ph: &[u8] = match slice_at(file.as_slice(), at, 56) {
                Some(b) => b,
                None => {
                    assert(ph_at(file@, i as int) + 56 > file.len());
                    return None;
                },
            };
            let ty: u32 = rd_u32(ph, 0);
            let flags: u32 = rd_u32(ph, 4);
            let off: u64 = rd_u64(ph, 8);
            let va: u64 = rd_u64(ph, 16);
            let fsz: u64 = rd_u64(ph, 32);
            let msz: u64 = rd_u64(ph, 40);
            proof {
                le_sub(file@, at as int, 56, 0);
                le_sub(file@, at as int, 56, 4);
                le_sub(file@, at as int, 56, 8);
                le_sub(file@, at as int, 56, 16);
                le_sub(file@, at as int, 56, 32);
                le_sub(file@, at as int, 56, 40);
            }
            if ty == PT_LOAD {
                segs.push(Seg { off, va, fsz, msz, flags });
            } else if ty == PT_DYNAMIC {
                dynamic = Some((off, fsz));
            }
            i = i + 1;
        }
        assert(elf_header(file@));
        if segs.len() == 0 {
            return None;
        }
        let (doff, dsz): (u64, u64) = match dynamic {
            Some(d) => d,
            None => {
                return None;
            },
        };
        if dsz > file.len() as u64 {
            return None;
        }
        let mut rela: Vec<(u64, u64)> = Vec::new();
        let mut symtab: u64 = 0;
        let mut strtab: u64 = 0;
        let mut syment: u64 = 24;
        {
            let b: &[u8] = match slice_at(file.as_slice(), doff, dsz as usize) {
                Some(b) => b,
                None => {
                    return None;
                },
            };
            let mut rela_va: u64 = 0;
            let mut relasz: u64 = 0;
            let mut jmprel: u64 = 0;
            let mut pltrelsz: u64 = 0;
            let mut k: usize = 0;
            let count: usize = b.len() / 16;
            while k < count && rd_u64(b, 16 * k) != 0
                invariant
                    k <= count,
                    count == b@.len() / 16,
                    16 * count <= b.len(),
                    dyn_count(b@, 0) == dyn_count(b@, k as int),
                    rela_va == dyn_value(b@, k as int, DT_RELA, 0),
                    relasz == dyn_value(b@, k as int, DT_RELASZ, 0),
                    jmprel == dyn_value(b@, k as int, DT_JMPREL, 0),
                    pltrelsz == dyn_value(b@, k as int, DT_PLTRELSZ, 0),
                    symtab == dyn_value(b@, k as int, DT_SYMTAB, 0),
                    strtab == dyn_value(b@, k as int, DT_STRTAB, 0),
                    syment == dyn_value(b@, k as int, DT_SYMENT, 24),
                decreases count - k,
            {
                let tag: u64 = rd_u64(b, 16 * k);
                let val: u64 = rd_u64(b, 16 * k + 8);
                if tag == DT_RELA {
                    rela_va = val;
                } else if tag == DT_RELASZ {
                    relasz = val;
                } else if tag == DT_JMPREL {
                    jmprel = val;
                } else if tag == DT_PLTRELSZ {
                    pltrelsz = val;
                } else if tag == DT_SYMTAB {
                    symtab = val;
                } else if tag == DT_STRTAB {
                    strtab = val;
                } else if tag == DT_SYMENT {
                    syment = val;
                }
                k = k + 1;
            }
            assert(dyn_count(b@, 0) == k);
            if rela_va != 0 && relasz != 0 {
                rela.push((rela_va, relasz));
            }
            if jmprel != 0 && pltrelsz != 0 {
                rela.push((jmprel, pltrelsz));
            }
            assert(rela@ =~= rela_tables(b@, k as int));
        }
        Some(Module { file, segs, rela, symtab, strtab, syment })
    }

    /// File offset of an address.
    fn v2o(&self, va: u64) -> (r: Option<u64>)
        ensures
            match r {
                Some(o) => self@.v2o(va as int) == Some(o as int),
                None => match self@.v2o(va as int) {
                    Some(o) => o > u64::MAX,
                    None => true,
                },
            },
    {
        let mut i: usize = 0;
        while i < self.segs.len()
            invariant
                i <= self.segs@.len(),
                self@.v2o(va as int) == seg_offset(self.segs@, va as int, i as int),
            decreases self.segs@.len() - i,
        {
            let s: Seg = self.segs[i];
            if va >= s.va && va - s.va < s.fsz {
                return s.off.checked_add(va - s.va);
            }
            i = i + 1;
        }
        None
    }

    /// The `len` bytes at an address.
    fn bytes_va(&self, va: u64, len: usize) -> (r: Option<&[u8]>)
        ensures
            match r {
                Some(b) => self@.read_va(va as int, len as int) == Some(b@) && b@.len() == len,
                None => self@.read_va(va as int, len as int) is None,
            },
    {
        // the length of a vector is a usize
        let size: usize = self.file.len();
        let mut i: usize = 0;
        while i < self.segs.len()
            invariant
                i <= self.segs@.len(),
                size == self.file@.len(),
                self@.read_va(va as int, len as int) == seg_bytes(
                    self.file@,
                    self.segs@,
                    va as int,
                    len as int,
                    i as int,
                ),
            decreases self.segs@.len() - i,
        {
            let s: Seg = self.segs[i];
            if va >= s.va && va - s.va < s.fsz && len as u64 <= s.fsz - (va - s.va) {
                match s.off.checked_add(va - s.va) {
                    Some(o) => match slice_at(self.file.as_slice(), o, len) {
                        Some(b) => {
                            return Some(b);
                        },
                        None => {},
                    },
                    None => {},
                }
            }
            i = i + 1;
        }
        None
    }

    /// The bytes at an address up to the end of its segment's file contents.
    fn bytes_up_to(&self, va: u64, max: usize) -> (r: Option<&[u8]>)
        ensures
            match r {
                Some(b) => self@.read_up_to(va as int, max as int) == Some(b@),
                None => self@.read_up_to(va as int, max as int) is None,
            },
    {
        // the length of a vector is a usize
        let size: usize = self.file.len();
        let mut i: usize = 0;
        while i < self.segs.len()
            invariant
                i <= self.segs@.len(),
                size == self.file@.len(),
                self@.v2o(va as int) == seg_offset(self.segs@, va as int, i as int),
                seg_room(self.segs@, va as int, 0) == seg_room(self.segs@, va as int, i as int),
            decreases self.segs@.len() - i,
        {
            let s: Seg = self.segs[i];
            if va >= s.va && va - s.va < s.fsz {
                let room: u64 = s.fsz - (va - s.va);
                let len: usize = if room < max as u64 {
                    room as usize
                } else {
                    max
                };
                return match s.off.checked_add(va - s.va) {
                    Some(o) => slice_at(self.file.as_slice(), o, len),
                    None => None,
                };
            }
            i = i + 1;
        }
        None
    }

    /// Reads `len` bytes at a link-time address, or `None` if they are not all
    /// backed by the file contents of a segment (past end-of-file in .bss, or
    /// outside every segment).
    pub fn read_va(&self, va: u64, len: usize) -> (r: Option<Vec<u8>>)
        ensures
            match r {
                Some(b) => self@.read_va(va as int, len as int) == Some(b@) && b@.len() == len,
                None => self@.read_va(va as int, len as int) is None,
            },
    {
        match self.bytes_va(va, len) {
            Some(b) => Some(vstd::slice::slice_to_vec(b)),
            None => None,
        }
    }

    /// Reads a little-endian pointer-sized word at a link-time address.
    pub fn u64_va(&self, va: u64) -> (r: Option<u64>)
        ensures
            match r {
                Some(v) => self@.u64_va(va as int) == Some(v as int),
                None => self@.u64_va(va as int) is None,
            },
    {
        match self.bytes_va(va, 8) {
            Some(b) => Some(rd_u64(b, 0)),
            None => None,
        }
    }

    /// Reads a little-endian signed word at a link-time address.
    fn i64_va(&self, va: u64) -> (r: Option<i64>)
        ensures
            match r {
                Some(v) => self@.i64_va(va as int) == Some(v as int),
                None => self@.i64_va(va as int) is None,
            },
    {
        match self.bytes_va(va, 8) {
            Some(b) => Some(rd_i64(b, 0)),
            None => None,
        }
    }

    /// Address span of the module's writable segments, *including* the part of
    /// .bss past end-of-file. A segment that would run past the last address
    /// ends there.
    pub fn writable_span(&self) -> (r: Option<(u64, u64)>)
        ensures
            match r {
                Some((lo, hi)) => {
                    &&& exists|i: int| is_writable(self@.segs, i) && self@.segs[i].va == lo
                    &&& exists|i: int| is_writable(self@.segs, i) && seg_end(self@.segs[i]) == hi
                    &&& forall|i: int|
                        is_writable(self@.segs, i) ==> lo <= self@.segs[i].va && seg_end(
                            self@.segs[i],
                        ) <= hi
                },
                None => forall|i: int| !is_writable(self@.segs, i),
            },
    {
        let mut span: Option<(u64, u64)> = None;
        let mut i: usize = 0;
        while i < self.segs.len()
            invariant
                i <= self@.segs.len(),
                match span {
                    Some((lo, hi)) => {
                        &&& exists|j: int|
                            j < i && is_writable(self@.segs, j) && self@.segs[j].va == lo
                        &&& exists|j: int|
                            j < i && is_writable(self@.segs, j) && seg_end(self@.segs[j]) == hi
                        &&& forall|j: int|
                            j < i && is_writable(self@.segs, j) ==> lo <= self@.segs[j].va
                                && seg_end(self@.segs[j]) <= hi
                    },
                    None => forall|j: int| j < i ==> !is_writable(self@.segs, j),
                },
            decreases self.segs@.len() - i,
        {
            let s: Seg = self.segs[i];
            if s.flags & PF_W != 0 {
                let end: u64 = s.va.saturating_add(s.msz);
                assert(is_writable(self@.segs, i as int) && seg_end(self@.segs[i as int]) == end);
                span = match span {
                    None => Some((s.va, end)),
                    Some((lo, hi)) => Some(
                        (
                            if s.va < lo {
                                s.va
                            } else {
                                lo
                            },
                            if end > hi {
                                end
                            } else {
                                hi
                            },
                        ),
                    ),
                };
            }
            i = i + 1;
        }
        assert(forall|j: int| is_writable(self@.segs, j) ==> j < i);
        span
    }

    /// True if this link-time address lands in an executable segment. Used to
    /// reject a resolved "function" that is really data.
    pub fn is_exec(&self, va: u64) -> (r: bool)
        ensures
            r == self@.is_exec(va as int),
    {
        let mut i: usize = 0;
        while i < self.segs.len()
            invariant
                i <= self.segs@.len(),
                forall|j: int|
                    0 <= j < i ==> !((#[trigger] self@.segs[j]).flags & PF_X != 0 && self@.segs[j].va
                        <= va < self@.segs[j].va + self@.segs[j].msz),
            decreases self.segs@.len() - i,
        {
            let s: Seg = self.segs[i];
            if s.flags & PF_X != 0 && va >= s.va && va - s.va < s.msz {
                assert(self@.segs[i as int] == s);
                return true;
            }
            i = i + 1;
        }
        false
    }
}

/// Segment `i` exists and is writable.
pub open spec fn is_writable(segs: Seq<Seg>, i: int) -> bool {
    0 <= i < segs.len() && segs[i].flags & PF_W != 0
}

/// Where a segment ends in memory, at most the last address.
pub open spec fn seg_end(s: Seg) -> int {
    if s.va + s.msz <= u64::MAX {
        s.va + s.msz
    } else {
        u64::MAX as int
    }
}

/// The members of a relocation target list that a slot points at.
pub open spec fn points_into(m: ElfImage, slot: int, targets: Seq<u64>) -> bool {
    exists|i: int|
        #![trigger targets[i]]
        0 <= i < targets.len() && m.points_at(slot, targets[i] as int)
}

impl Module {
    /// The wanted segments as stretches of the file.
    fn extents(&self, want: Access) -> (r: Vec<Extent>)
        ensures
            r@ == wanted(self@.segs, want, self@.segs.len() as int),
    {
        let mut out: Vec<Extent> = Vec::new();
        let mut i: usize = 0;
        while i < self.segs.len()
            invariant
                i <= self.segs@.len(),
                out@ == wanted(self.segs@, want, i as int),
            decreases self.segs@.len() - i,
        {
            let s: Seg = self.segs[i];
            if want.matches(s.flags) {
                out.push(Extent { off: s.off, va: s.va, len: s.fsz });
            }
            i = i + 1;
        }
        out
    }

    /// The requested segments in overlapping windows, each with the link-time
    /// address of its first byte.
    pub fn scan(&self, want: Access, overlap: usize) -> (r: Vec<(u64, &[u8])>)
        ensures
            window_views(r@) == self@.windows(want, overlap as nat),
    {
        let all: Vec<Extent> = self.extents(want);
        windows(self.file.as_slice(), all.as_slice(), overlap)
    }

    /// Every address in `want` segments where `needle` occurs.
    fn find_all(&self, needle: &[u8], want: Access) -> (r: Vec<u64>)
        ensures
            increasing(r@),
            forall|v: u64| r@.contains(v) <==> self@.hit(needle@, want, v as int),
    {
        let all: Vec<Extent> = self.extents(want);
        find_all(self.file.as_slice(), all.as_slice(), needle)
    }

    /// Every relative-relocation slot whose target is one of `targets`: who
    /// points at these?
    fn relative_to(&self, targets: &[u64]) -> (r: Vec<u64>)
        ensures
            increasing(r@),
            forall|v: u64| r@.contains(v) <==> points_into(self@, v as int, targets@),
    {
        let mut out: Vec<u64> = Vec::new();
        let ghost m = self@;
        let n: u64 = self.file.len() as u64;
        let mut t: usize = 0;
        assert forall|v: u64| !into_before(m, 0, 0, v as int, targets@) by {}
        while t < self.rela.len()
            invariant
                t <= self.rela@.len(),
                m == self@,
                n == self.file.len(),
                increasing(out@),
                forall|v: u64|
                    out@.contains(v) <==> into_before(m, t as int, 0, v as int, targets@),
            decreases self.rela@.len() - t,
        {
            let (va, size): (u64, u64) = self.rela[t];
            assert(m.rela[t as int] == (va, size));
            match self.v2o(va) {
                None => {
                    assert(forall|e: int| m.entry(t as int, e) is None);
                    assert forall|v: u64|
                        out@.contains(v) <==> into_before(
                            m,
                            t + 1,
                            0,
                            v as int,
                            targets@,
                        ) by {
                        next_table(m, t as int, 0, v as int, targets@);
                    }
                },
                Some(base) => {
                    let mut e: u64 = 0;
                    let mut more: bool = true;
                    while more
                        invariant
                            t < self.rela@.len(),
                            m == self@,
                            n == self.file.len(),
                            m.rela[t as int] == (va, size),
                            m.v2o(va as int) == Some(base as int),
                            e * RELA_ENT <= n,
                            increasing(out@),
                            forall|v: u64|
                                out@.contains(v) <==> into_before(
                                    m,
                                    t as int,
                                    e as int,
                                    v as int,
                                    targets@,
                                ),
                            !more ==> forall|k: int| e <= k ==> m.entry(t as int, k) is None,
                        decreases n + 1 - e, (if more { 1int } else { 0int }),
                    {
                        let end: u128 = (e as u128 / 43_690 + 1) * 1_048_560;
                        let stop: u128 = if end < size as u128 {
                            end
                        } else {
                            size as u128
                        };
                        assert(stop == read_end(size as int, e as int));
                        if (e as u128 + 1) * RELA_ENT as u128 > size as u128 || base as u128 + stop
                            > n as u128 {
                            assert forall|k: int| e <= k implies m.entry(t as int, k) is None by {
                                read_end_grows(size as int, e as int, k);
                            }
                            more = false;
                        } else {
                            proof {
                                read_covers(size as int, e as int);
                            }
                            let at: usize = (base + e * RELA_ENT) as usize;
                            let file: &[u8] = self.file.as_slice();
                            let slot: u64 = rd_u64(file, at);
                            let info: u64 = rd_u64(file, at + 8);
                            let addend: u64 = rd_u64(file, at + 16);
                            assert(m.entry(t as int, e as int) == Some(
                                record_at(m.file, base + RELA_ENT * e),
                            ));
                            let take: bool = info % 0x1_0000_0000 == R_X86_64_RELATIVE && holds(
                                targets,
                                addend,
                            );
                            if take {
                                insert_sorted(&mut out, slot);
                            }
                            proof {
                                assert forall|v: u64|
                                    out@.contains(v) <==> into_before(
                                        m,
                                        t as int,
                                        e + 1,
                                        v as int,
                                        targets@,
                                    ) by {
                                    next_entry(m, t as int, e as int, v as int, targets@);
                                }
                            }
                            e = e + 1;
                        }
                    }
                    assert forall|v: u64|
                        out@.contains(v) <==> into_before(m, t + 1, 0, v as int, targets@) by {
                        next_table(m, t as int, e as int, v as int, targets@);
                    }
                },
            }
            t = t + 1;
        }
        assert forall|v: u64|
            into_before(m, t as int, 0, v as int, targets@) <==> points_into(
                m,
                v as int,
                targets@,
            ) by {
            before_is_into(m, v as int, targets@);
        }
        out
    }

    /// The bytes of a symbol's name.
    fn symname(&self, idx: u32) -> (r: Option<Vec<u8>>)
        ensures
            match r {
                Some(b) => self@.symname(idx as int) == Some(b@),
                None => self@.symname(idx as int) is None,
            },
    {
        if self.symtab == 0 || self.strtab == 0 {
            return None;
        }
        let entry: u64 = self.syment;
        assert(idx * entry <= 0xffff_ffff * 0xffff_ffff_ffff_ffff) by (nonlinear_arith)
            requires
                0 <= idx <= 0xffff_ffff,
                0 <= entry <= 0xffff_ffff_ffff_ffff,
        ;
        assert(0 <= idx * entry) by (nonlinear_arith)
            requires
                0 <= idx,
                0 <= entry,
        ;
        let at: u128 = idx as u128 * entry as u128 + self.symtab as u128;
        if at > u64::MAX as u128 {
            return None;
        }
        let name: u32 = match self.bytes_va(at as u64, 4) {
            Some(sym) => rd_u32(sym, 0),
            None => {
                return None;
            },
        };
        let at: u64 = match self.strtab.checked_add(name as u64) {
            Some(at) => at,
            None => {
                return None;
            },
        };
        match self.bytes_up_to(at, NAME_BYTES) {
            Some(buf) => c_string(buf),
            None => None,
        }
    }

    /// GOT slot address for an imported symbol (JUMP_SLOT / GLOB_DAT). This is
    /// exact: the slot is named by the relocation, never guessed.
    pub fn jump_slot(&self, sym: &str) -> (r: Option<u64>)
        ensures
            match r {
                Some(v) => self@.slot_from(encode_utf8(sym@), 0) == Some(v as int),
                None => self@.slot_from(encode_utf8(sym@), 0) is None,
            },
    {
        let wanted: &[u8] = sym.as_bytes();
        let ghost m = self@;
        let mut t: usize = 0;
        while t < self.rela.len()
            invariant
                t <= self.rela@.len(),
                m == self@,
                wanted@ == encode_utf8(sym@),
                m.slot_from(wanted@, 0) == m.slot_from(wanted@, t as int),
            decreases self.rela@.len() - t,
        {
            let (va, size): (u64, u64) = self.rela[t];
            assert(m.rela[t as int] == (va, size));
            if size > self.file.len() as u64 {
                return None;
            }
            let base: u64 = match self.v2o(va) {
                Some(o) => o,
                None => {
                    return None;
                },
            };
            let table: &[u8] = match slice_at(self.file.as_slice(), base, size as usize) {
                Some(b) => b,
                None => {
                    return None;
                },
            };
            let mut e: usize = 0;
            let count: usize = table.len() / 24;
            while e < count
                invariant
                    e <= count,
                    count == table.len() / 24,
                    m == self@,
                    m.table_slot(table@, wanted@, 0) == m.table_slot(table@, wanted@, e as int),
                    m.slot_from(wanted@, 0) == match m.table_slot(table@, wanted@, 0) {
                        Some(slot) => Some(slot),
                        None => m.slot_from(wanted@, t + 1),
                    },
                    wanted@ == encode_utf8(sym@),
                decreases count - e,
            {
                let info: u64 = rd_u64(table, 24 * e + 8);
                let ty: u64 = info % 0x1_0000_0000;
                assert(record_at(table@, RELA_ENT * e).info == info);
                if ty == R_X86_64_JUMP_SLOT || ty == R_X86_64_GLOB_DAT {
                    match self.symname((info / 0x1_0000_0000) as u32) {
                        Some(name) => {
                            if same_bytes(name.as_slice(), wanted) {
                                return Some(rd_u64(table, 24 * e));
                            }
                        },
                        None => {},
                    }
                }
                e = e + 1;
            }
            t = t + 1;
        }
        None
    }

    /// Vtable sub-tables of a class, found via RTTI. `mangled` is the typeinfo
    /// name (e.g. `6CInput` for `class CInput`).
    ///
    /// Returns `(t, offset_to_top)` where `t` is the address of the vtable's
    /// typeinfo slot: virtual N lives at `t + 8 + 8*N`, matching the pointer
    /// an object's vptr holds (`t + 8`). `offset_to_top` is 0 for the primary
    /// sub-table and negative for the secondary ones of a multiple-inheritance
    /// class.
    pub fn vtables(&self, mangled: &str) -> (r: Vec<(u64, i64)>)
        ensures
            forall|i: int, j: int| 0 <= i < j < r@.len() ==> r@[i].0 < r@[j].0,
            forall|t: u64, otop: i64|
                #[trigger] r@.contains((t, otop)) <==> self@.is_vtable(
                    encode_utf8(mangled@),
                    t as int,
                    otop as int,
                ),
    {
        let ghost m = self@;
        let ghost name = encode_utf8(mangled@);
        let mut needle: Vec<u8> = Vec::new();
        needle.push(0u8);
        let body: &[u8] = mangled.as_bytes();
        let mut i: usize = 0;
        while i < body.len()
            invariant
                i <= body.len(),
                needle@ == seq![0u8] + body@.take(i as int),
            decreases body@.len() - i,
        {
            needle.push(body[i]);
            i = i + 1;
            assert(needle@ =~= seq![0u8] + body@.take(i as int));
        }
        needle.push(0u8);
        assert(needle@ =~= name_needle(name));
        let hits: Vec<u64> = self.find_all(needle.as_slice(), Access::Rodata);
        let mut names: Vec<u64> = Vec::new();
        let mut i: usize = 0;
        while i < hits.len()
            invariant
                i <= hits@.len(),
                forall|v: u64|
                    names@.contains(v) <==> exists|k: int|
                        0 <= k < i && #[trigger] hits@[k] + 1 == v,
            decreases hits@.len() - i,
        {
            let ghost before = names@;
            if hits[i] < u64::MAX {
                names.push(hits[i] + 1);
            }
            proof {
                assert forall|v: u64|
                    names@.contains(v) <==> exists|k: int|
                        0 <= k < i + 1 && #[trigger] hits@[k] + 1 == v by {
                    vstd::seq_lib::lemma_seq_contains_after_push(
                        before,
                        (hits@[i as int] + 1) as u64,
                        v,
                    );
                }
            }
            i = i + 1;
        }
        assert forall|v: u64| names@.contains(v) <==> m.is_name(name, v as int) by {
            if names@.contains(v) {
                let k = choose|k: int| 0 <= k < i && #[trigger] hits@[k] + 1 == v;
                assert(hits@.contains(hits@[k]));
            }
            if m.is_name(name, v as int) {
                hit_is_address(m, name_needle(name), Access::Rodata, v - 1);
                let h = (v - 1) as u64;
                assert(hits@.contains(h));
                let k = choose|k: int| 0 <= k < hits@.len() && hits@[k] == h;
                assert(hits@[k] + 1 == v);
            }
        }
        let slots: Vec<u64> = self.relative_to(names.as_slice());
        let mut tis: Vec<u64> = Vec::new();
        let mut i: usize = 0;
        while i < slots.len()
            invariant
                i <= slots@.len(),
                forall|v: u64|
                    tis@.contains(v) <==> exists|k: int|
                        0 <= k < i && #[trigger] slots@[k] - 8 == v,
            decreases slots@.len() - i,
        {
            let ghost before = tis@;
            if slots[i] >= 8 {
                tis.push(slots[i] - 8);
            }
            proof {
                assert forall|v: u64|
                    tis@.contains(v) <==> exists|k: int|
                        0 <= k < i + 1 && #[trigger] slots@[k] - 8 == v by {
                    vstd::seq_lib::lemma_seq_contains_after_push(
                        before,
                        (slots@[i as int] - 8) as u64,
                        v,
                    );
                }
            }
            i = i + 1;
        }
        assert forall|v: u64| tis@.contains(v) <==> m.is_typeinfo(name, v as int) by {
            if tis@.contains(v) {
                let k = choose|k: int| 0 <= k < i && #[trigger] slots@[k] - 8 == v;
                assert(slots@.contains(slots@[k]));
                assert(points_into(m, slots@[k] as int, names@));
                let j = choose|j: int|
                    #![trigger names@[j]]
                    0 <= j < names@.len() && m.points_at(slots@[k] as int, names@[j] as int);
                assert(names@.contains(names@[j]));
                assert(m.points_at(v + 8, names@[j] as int));
            }
            if m.is_typeinfo(name, v as int) {
                let a = choose|a: int|
                    #![trigger m.points_at(v + 8, a)]
                    m.is_name(name, a) && m.points_at(v + 8, a);
                slot_is_word(m, v + 8, a);
                assert(names@.contains(a as u64));
                let j = choose|j: int| 0 <= j < names@.len() && names@[j] == a as u64;
                assert(points_into(m, v + 8, names@));
                assert(slots@.contains((v + 8) as u64));
                let k = choose|k: int| 0 <= k < slots@.len() && slots@[k] == (v + 8) as u64;
                assert(slots@[k] - 8 == v);
            }
        }
        let tables: Vec<u64> = self.relative_to(tis.as_slice());
        assert forall|v: u64| tables@.contains(v) <==> m.is_class_slot(name, v as int) by {
            if tables@.contains(v) {
                let j = choose|j: int|
                    #![trigger tis@[j]]
                    0 <= j < tis@.len() && m.points_at(v as int, tis@[j] as int);
                assert(tis@.contains(tis@[j]));
            }
            if m.is_class_slot(name, v as int) {
                let ti = choose|ti: int|
                    #![trigger m.points_at(v as int, ti)]
                    m.is_typeinfo(name, ti) && m.points_at(v as int, ti);
                slot_is_word(m, v as int, ti);
                assert(tis@.contains(ti as u64));
                let j = choose|j: int| 0 <= j < tis@.len() && tis@[j] == ti as u64;
                assert(points_into(m, v as int, tis@));
            }
        }
        let out: Vec<(u64, i64)> = self.shaped(&tables);
        assert forall|t: u64, otop: i64|
            out@.contains((t, otop)) <==> m.is_vtable(name, t as int, otop as int) by {
            assert(tables@.contains(t) <==> m.is_class_slot(name, t as int));
            assert(out@.contains((t, otop)) <==> tables@.contains(t) && vtable_shape(
                m,
                t as int,
                otop as int,
            ));
            assert(m.is_vtable(name, t as int, otop as int) <==> m.is_class_slot(name, t as int)
                && vtable_shape(m, t as int, otop as int));
        }
        out
    }

    /// Those of the slots that are shaped like a vtable's typeinfo slot, with
    /// their offset-to-top.
    fn shaped(&self, tables: &Vec<u64>) -> (r: Vec<(u64, i64)>)
        requires
            increasing(tables@),
        ensures
            forall|i: int, j: int| 0 <= i < j < r@.len() ==> r@[i].0 < r@[j].0,
            forall|t: u64, otop: i64|
                #[trigger] r@.contains((t, otop)) <==> tables@.contains(t) && vtable_shape(
                    self@,
                    t as int,
                    otop as int,
                ),
    {
        let mut out: Vec<(u64, i64)> = Vec::new();
        let mut i: usize = 0;
        while i < tables.len()
            invariant
                i <= tables@.len(),
                increasing(tables@),
                forall|a: int, b: int| 0 <= a < b < out@.len() ==> out@[a].0 < out@[b].0,
                forall|a: int| 0 <= a < out@.len() ==> tables@.take(i as int).contains(
                    (#[trigger] out@[a]).0,
                ),
                forall|t: u64, otop: i64|
                    #[trigger] out@.contains((t, otop)) <==> tables@.take(i as int).contains(t)
                        && vtable_shape(self@, t as int, otop as int),
            decreases tables@.len() - i,
        {
            let t: u64 = tables[i];
            let ghost before = out@;
            let ghost seen = tables@.take(i as int);
            assert(tables@.take(i + 1) =~= seen.push(t));
            assert forall|u: u64| seen.contains(u) implies u < t by {
                let k = choose|k: int| 0 <= k < seen.len() && seen[k] == u;
                assert(tables@[k] < tables@[i as int]);
            }
            let found: Option<i64> = self.offset_to_top(t);
            match found {
                Some(otop) => {
                    out.push((t, otop));
                },
                None => {},
            }
            proof {
                assert forall|a: int| 0 <= a < out@.len() implies seen.push(t).contains(
                    (#[trigger] out@[a]).0,
                ) by {
                    vstd::seq_lib::lemma_seq_contains_after_push(seen, t, out@[a].0);
                }
                assert forall|u: u64, o: i64|
                    out@.contains((u, o)) <==> seen.push(t).contains(u) && vtable_shape(
                        self@,
                        u as int,
                        o as int,
                    ) by {
                    vstd::seq_lib::lemma_seq_contains_after_push(seen, t, u);
                    match found {
                        Some(otop) => {
                            vstd::seq_lib::lemma_seq_contains_after_push(
                                before,
                                (t, otop),
                                (u, o),
                            );
                        },
                        None => {},
                    }
                }
            }
            i = i + 1;
        }
        assert(tables@.take(tables@.len() as int) =~= tables@);
        out
    }

    /// The offset-to-top of a slot shaped like a vtable's typeinfo slot.
    fn offset_to_top(&self, t: u64) -> (r: Option<i64>)
        ensures
            match r {
                Some(o) => vtable_shape(self@, t as int, o as int),
                None => forall|o: i64| !vtable_shape(self@, t as int, o as int),
            },
    {
        if t > u64::MAX - 8 || t < 8 {
            return None;
        }
        match self.u64_va(t + 8) {
            None => None,
            Some(f) => {
                if !self.is_exec(f) {
                    return None;
                }
                match self.i64_va(t - 8) {
                    None => None,
                    Some(o) => {
                        if o <= 0 && o > -0x100_0000 {
                            Some(o)
                        } else {
                            None
                        }
                    },
                }
            },
        }
    }

    /// The primary (offset-to-top 0) vtable of a class: the lowest one.
    pub fn vtable(&self, mangled: &str) -> (r: Option<u64>)
        ensures
            match r {
                Some(t) => first_vtable(self@, encode_utf8(mangled@), t as int),
                None => forall|t: u64| !self@.is_vtable(encode_utf8(mangled@), t as int, 0),
            },
    {
        let all: Vec<(u64, i64)> = self.vtables(mangled);
        let ghost name = encode_utf8(mangled@);
        let mut i: usize = 0;
        while i < all.len()
            invariant
                i <= all@.len(),
                name == encode_utf8(mangled@),
                forall|a: int, b: int| 0 <= a < b < all@.len() ==> all@[a].0 < all@[b].0,
                forall|t: u64, otop: i64|
                    all@.contains((t, otop)) <==> self@.is_vtable(name, t as int, otop as int),
                forall|k: int| 0 <= k < i ==> (#[trigger] all@[k]).1 != 0,
            decreases all@.len() - i,
        {
            if all[i].1 == 0 {
                let t: u64 = all[i].0;
                proof {
                    assert(all@.contains(all@[i as int]));
                    assert(all@[i as int] == (t, 0i64));
                    assert forall|u: u64| u < t implies !self@.is_vtable(name, u as int, 0) by {
                        if self@.is_vtable(name, u as int, 0) {
                            assert(all@.contains((u, 0i64)));
                            let k = choose|k: int| 0 <= k < all@.len() && all@[k] == (u, 0i64);
                            assert(k >= i);
                        }
                    }
                }
                return Some(t);
            }
            i = i + 1;
        }
        assert forall|t: u64| !self@.is_vtable(name, t as int, 0) by {
            if self@.is_vtable(name, t as int, 0) {
                assert(all@.contains((t, 0i64)));
            }
        }
        None
    }

    /// Target of virtual `idx` in the vtable whose typeinfo slot is `t`.
    pub fn vfn(&self, t: u64, idx: usize) -> (r: Option<u64>)
        ensures
            match r {
                Some(f) => self@.vfn(t as int, idx as int) == Some(f as int),
                None => self@.vfn(t as int, idx as int) is None,
            },
    {
        let at: u128 = t as u128 + 8 + 8 * (idx as u128);
        if at > u64::MAX as u128 {
            return None;
        }
        match self.u64_va(at as u64) {
            Some(va) => {
                if self.is_exec(va) {
                    Some(va)
                } else {
                    None
                }
            },
            None => None,
        }
    }

    /// Address of the slot holding virtual `idx` (what a vtable hook writes
    /// to).
    pub fn vslot(t: u64, idx: usize) -> (r: u64)
        requires
            t + 8 + 8 * idx <= u64::MAX,
        ensures
            r == t + 8 + 8 * idx,
    {
        t + 8 + 8 * (idx as u64)
    }

    /// Walks a vtable's virtuals until the entries stop being code, at most
    /// `max` of them.
    pub fn virtuals(&self, t: u64, max: usize) -> (r: Vec<(usize, u64)>)
        ensures
            virtuals_of(self@, t as int, max as int, r@),
    {
        let mut out: Vec<(usize, u64)> = Vec::new();
        let mut i: usize = 0;
        while i < max
            invariant
                i <= max,
                out@.len() == i,
                forall|k: int|
                    0 <= k < i ==> (#[trigger] out@[k]).0 == k && self@.vfn(t as int, k) == Some(
                        out@[k].1 as int,
                    ),
            decreases max - i,
        {
            match self.vfn(t, i) {
                Some(f) => {
                    out.push((i, f));
                },
                None => {
                    return out;
                },
            }
            i = i + 1;
        }
        out
    }
}

/// `r` lists the virtuals of the vtable at `t`: index and code address, from
/// the first on, up to `max` of them or to the first slot that holds no code.
pub open spec fn virtuals_of(m: ElfImage, t: int, max: int, r: Seq<(usize, u64)>) -> bool {
    &&& r.len() <= max
    &&& forall|k: int|
        0 <= k < r.len() ==> (#[trigger] r[k]).0 == k && m.vfn(t, k) == Some(r[k].1 as int)
    &&& r.len() < max ==> m.vfn(t, r.len() as int) is None
}

/// The words around `t` are those of a vtable's typeinfo slot.
pub open spec fn vtable_shape(m: ElfImage, t: int, otop: int) -> bool {
    &&& m.u64_va(t + 8) matches Some(f) && m.is_exec(f)
    &&& m.i64_va(t - 8) == Some(otop)
    &&& -0x100_0000 < otop <= 0
}

/// `t` is the lowest primary vtable of the class.
pub open spec fn first_vtable(m: ElfImage, mangled: Seq<u8>, t: int) -> bool {
    m.is_vtable(mangled, t, 0) && forall|u: u64| u < t ==> !m.is_vtable(mangled, u as int, 0)
}

/// A slot points into the targets by a record before record `e` of table `t`.
spec fn into_before(m: ElfImage, t: int, e: int, slot: int, targets: Seq<u64>) -> bool {
    exists|a: int, b: int|
        0 <= a < m.rela.len() && (a < t || (a == t && b < e)) && relates(
            #[trigger] m.entry(a, b),
            slot,
            targets,
        )
}

spec fn relates(r: Option<RelaEntry>, slot: int, targets: Seq<u64>) -> bool {
    r matches Some(r) && r.info % 0x1_0000_0000 == R_X86_64_RELATIVE && r.slot == slot && exists|
        i: int,
    |
        0 <= i < targets.len() && #[trigger] targets[i] == r.addend
}

proof fn next_entry(m: ElfImage, t: int, e: int, slot: int, targets: Seq<u64>)
    requires
        0 <= t < m.rela.len(),
        0 <= e,
    ensures
        into_before(m, t, e + 1, slot, targets) <==> into_before(m, t, e, slot, targets)
            || relates(m.entry(t, e), slot, targets),
{
}

proof fn next_table(m: ElfImage, t: int, e: int, slot: int, targets: Seq<u64>)
    requires
        0 <= t < m.rela.len(),
        forall|k: int| e <= k ==> m.entry(t, k) is None,
    ensures
        into_before(m, t + 1, 0, slot, targets) <==> into_before(m, t, e, slot, targets),
{
    if into_before(m, t + 1, 0, slot, targets) {
        let (a, b) = choose|a: int, b: int|
            0 <= a < m.rela.len() && (a < t + 1 || (a == t + 1 && b < 0)) && relates(
                #[trigger] m.entry(a, b),
                slot,
                targets,
            );
        assert(m.entry(a, b) is Some);
        assert(b >= 0);
    }
}

proof fn before_is_into(m: ElfImage, slot: int, targets: Seq<u64>)
    ensures
        into_before(m, m.rela.len() as int, 0, slot, targets) <==> points_into(m, slot, targets),
{
    if into_before(m, m.rela.len() as int, 0, slot, targets) {
        let (a, b) = choose|a: int, b: int|
            0 <= a < m.rela.len() && (a < m.rela.len() || (a == m.rela.len() && b < 0))
                && relates(#[trigger] m.entry(a, b), slot, targets);
        let r = m.entry(a, b)->0;
        let i = choose|i: int| 0 <= i < targets.len() && #[trigger] targets[i] == r.addend;
        assert(m.points_at(slot, targets[i] as int));
    }
    if points_into(m, slot, targets) {
        let i = choose|i: int|
            #![trigger targets[i]]
            0 <= i < targets.len() && m.points_at(slot, targets[i] as int);
        let (a, b) = choose|a: int, b: int|
            0 <= a < m.rela.len() && (#[trigger] m.entry(a, b) matches Some(r) && r.info
                % 0x1_0000_0000 == R_X86_64_RELATIVE && r.addend == targets[i] as int && r.slot
                == slot);
        assert(relates(m.entry(a, b), slot, targets));
    }
}

/// A relocation's slot and addend are 64-bit words.
proof fn slot_is_word(m: ElfImage, slot: int, target: int)
    requires
        m.points_at(slot, target),
    ensures
        0 <= slot <= u64::MAX,
        0 <= target <= u64::MAX,
{
    let (a, b) = choose|a: int, b: int|
        0 <= a < m.rela.len() && (#[trigger] m.entry(a, b) matches Some(r) && r.info
            % 0x1_0000_0000 == R_X86_64_RELATIVE && r.addend == target && r.slot == slot);
    let base = m.v2o(m.rela[a].0 as int)->0;
    le_bounds(m.file, base + RELA_ENT * b);
    le_bounds(m.file, base + RELA_ENT * b + 16);
}

/// A hit has a non-negative address.
proof fn hit_is_address(m: ElfImage, needle: Seq<u8>, want: Access, v: int)
    requires
        m.hit(needle, want, v),
    ensures
        0 <= v,
{
}

/// Later records are covered by reads that end no earlier.
proof fn read_end_grows(size: int, e: int, k: int)
    requires
        0 <= e <= k,
    ensures
        read_end(size, e) <= read_end(size, k),
        RELA_ENT * (e + 1) <= RELA_ENT * (k + 1),
{
    assert(e / RELA_CHUNK as int <= k / RELA_CHUNK as int) by (nonlinear_arith)
        requires
            0 <= e <= k,
    ;
}

/// The read that covers a record of the table holds the whole record.
proof fn read_covers(size: int, e: int)
    requires
        0 <= e,
        RELA_ENT * (e + 1) <= size,
    ensures
        RELA_ENT * (e + 1) <= read_end(size, e),
{
    let q = e / RELA_CHUNK as int;
    assert(e < (q + 1) * RELA_CHUNK) by (nonlinear_arith)
        requires
            q == e / RELA_CHUNK as int,
            0 <= e,
    ;
}

/// A wanted segment is among the stretches that a scan walks.
/// The file contents of segment `i` back all of `len` bytes at an address, and
/// the file holds them.
pub open spec fn backed_by(m: ElfImage, i: int, va: int, len: int) -> bool {
    &&& 0 <= i < m.segs.len()
    &&& backs(m.segs[i], va, len)
    &&& m.segs[i].off + (va - m.segs[i].va) + len <= m.file.len()
}

/// Bytes can be read at an address where a segment backs all of them, and
/// nowhere else; what is read is what such a segment holds there.
pub proof fn reads_are_backed(m: ElfImage, va: int, len: int)
    requires
        0 <= va <= u64::MAX,
        0 <= len,
    ensures
        m.read_va(va, len) is Some <==> exists|i: int| #[trigger] backed_by(m, i, va, len),
        m.read_va(va, len) matches Some(b) ==> exists|i: int| #[trigger]
            backed_by(m, i, va, len) && b == m.file.subrange(
                m.segs[i].off + (va - m.segs[i].va),
                m.segs[i].off + (va - m.segs[i].va) + len,
            ),
{
    seg_bytes_are_backed(m, va, len, 0);
}

proof fn seg_bytes_are_backed(m: ElfImage, va: int, len: int, k: int)
    requires
        0 <= k <= m.segs.len(),
        0 <= len,
    ensures
        seg_bytes(m.file, m.segs, va, len, k) matches Some(b) ==> exists|i: int| #[trigger]
            backed_by(m, i, va, len) && b == m.file.subrange(
                m.segs[i].off + (va - m.segs[i].va),
                m.segs[i].off + (va - m.segs[i].va) + len,
            ),
        seg_bytes(m.file, m.segs, va, len, k) is None ==> forall|i: int|
            k <= i < m.segs.len() ==> !#[trigger] backed_by(m, i, va, len),
    decreases m.segs.len() - k,
{
    if k < m.segs.len() {
        if backed_by(m, k, va, len) {
        } else {
            seg_bytes_are_backed(m, va, len, k + 1);
        }
    }
}

proof fn wanted_holds(segs: Seq<Seg>, want: Access, n: int, i: int) -> (k: int)
    requires
        0 <= i < n <= segs.len(),
        want.wants(segs[i].flags),
    ensures
        0 <= k < wanted(segs, want, n).len(),
        wanted(segs, want, n)[k] == (Extent { off: segs[i].off, va: segs[i].va, len: segs[i].fsz }),
    decreases n,
{
    if i == n - 1 {
        wanted(segs, want, n).len() - 1
    } else {
        wanted_holds(segs, want, n - 1, i)
    }
}

/// Every stretch that a scan walks is a wanted segment.
proof fn wanted_source(segs: Seq<Seg>, want: Access, n: int, k: int) -> (i: int)
    requires
        0 <= n <= segs.len(),
        0 <= k < wanted(segs, want, n).len(),
    ensures
        0 <= i < n,
        want.wants(segs[i].flags),
        wanted(segs, want, n)[k] == (Extent { off: segs[i].off, va: segs[i].va, len: segs[i].fsz }),
    decreases n,
{
    if want.wants(segs[n - 1].flags) && k == wanted(segs, want, n).len() - 1 {
        n - 1
    } else {
        wanted_source(segs, want, n - 1, k)
    }
}

/// The scan misses nothing: wherever a needle stands in a wanted segment that
/// the file holds in full, the scan reports its address.
pub proof fn elf_scan_misses_nothing(m: ElfImage, i: int, needle: Seq<u8>, want: Access, k: int)
    requires
        0 <= i < m.segs.len(),
        want.wants(m.segs[i].flags),
        m.segs[i].off + m.segs[i].fsz <= m.file.len(),
        m.segs[i].va + m.segs[i].fsz <= u64::MAX,
        needle.len() > 0,
        occurs_at(
            m.file.subrange(m.segs[i].off as int, m.segs[i].off + m.segs[i].fsz),
            needle,
            k,
        ),
    ensures
        m.hit(needle, want, m.segs[i].va + k),
{
    let j = wanted_holds(m.segs, want, m.segs.len() as int, i);
    scan_misses_nothing(
        m.file,
        wanted(m.segs, want, m.segs.len() as int),
        j,
        needle,
        k,
    );
}

/// The scan invents nothing: every address it reports is one at which the file
/// contents of a wanted segment hold the needle.
pub proof fn elf_scan_invents_nothing(m: ElfImage, needle: Seq<u8>, want: Access, v: int)
    requires
        m.hit(needle, want, v),
    ensures
        exists|i: int|
            0 <= i < m.segs.len() && want.wants((#[trigger] m.segs[i]).flags) && m.segs[i].va <= v
                && v + needle.len() <= m.segs[i].va + m.segs[i].fsz && occurs_at(
                m.file,
                needle,
                m.segs[i].off + (v - m.segs[i].va),
            ),
{
    let all = wanted(m.segs, want, m.segs.len() as int);
    scan_invents_nothing(m.file, all, needle, v);
    let k = choose|k: int|
        0 <= k < all.len() && (#[trigger] all[k]).va <= v && v + needle.len() <= all[k].va
            + all[k].len && occurs_at(m.file, needle, all[k].off + (v - all[k].va));
    let i = wanted_source(m.segs, want, m.segs.len() as int, k);
    assert(want.wants(m.segs[i].flags));
}

/// Which segments a scan visits: code is what may be executed, and read-only
/// data is what may be neither executed nor written.
pub proof fn segments_are_told_apart(flags: u32)
    ensures
        Access::Code.wants(flags) <==> flags & 1 != 0,
        Access::Rodata.wants(flags) <==> flags & 1 == 0 && flags & 2 == 0,
{
}

/// A relocation record makes its slot point at its target.
pub proof fn relocated_slots_point(m: ElfImage, t: int, e: int, base: int)
    requires
        0 <= t < m.rela.len(),
        0 <= e,
        m.v2o(m.rela[t].0 as int) == Some(base),
        24 * (e + 1) <= m.rela[t].1,
        base + m.rela[t].1 <= m.file.len(),
        le64(m.file, base + 24 * e + 8) % 0x1_0000_0000 == 8,
    ensures
        m.points_at(le64(m.file, base + 24 * e), le64(m.file, base + 24 * e + 16)),
{
    let size = m.rela[t].1 as int;
    assert(read_end(size, e) <= size);
    assert(m.entry(t, e) == Some(record_at(m.file, base + 24 * e)));
}

/// A vtable is found by its class's name: the name stands whole in read-only
/// data, a typeinfo points at it, the slot points at the typeinfo, and code
/// stands behind the slot.
pub proof fn a_vtable_is_found(
    m: ElfImage,
    i: int,
    mangled: Seq<u8>,
    k: int,
    ti: int,
    t: int,
    otop: int,
)
    requires
        0 <= i < m.segs.len(),
        Access::Rodata.wants(m.segs[i].flags),
        m.segs[i].off + m.segs[i].fsz <= m.file.len(),
        m.segs[i].va + m.segs[i].fsz <= u64::MAX,
        occurs_at(
            m.file.subrange(m.segs[i].off as int, m.segs[i].off + m.segs[i].fsz),
            seq![0u8] + mangled + seq![0u8],
            k,
        ),
        0 <= ti,
        m.points_at(ti + 8, m.segs[i].va + k + 1),
        m.points_at(t, ti),
        m.u64_va(t + 8) matches Some(f) && m.is_exec(f),
        m.i64_va(t - 8) == Some(otop),
        -0x100_0000 < otop <= 0,
    ensures
        m.is_vtable(mangled, t, otop),
{
    elf_scan_misses_nothing(m, i, name_needle(mangled), Access::Rodata, k);
    let v = m.segs[i].va + k + 1;
    assert(m.is_name(mangled, v));
    assert(m.is_typeinfo(mangled, ti));
}

/// The slots of a vtable are eight bytes apart, behind its typeinfo slot, and
/// what stands in one is its code.
pub proof fn virtuals_are_read(m: ElfImage, t: int, idx: int, f: int)
    requires
        m.u64_va(t + 8 + 8 * idx) == Some(f),
    ensures
        m.is_exec(f) ==> m.vfn(t, idx) == Some(f),
        !m.is_exec(f) ==> m.vfn(t, idx) is None,
{
}

/// The slot of an import is found: that of the first record, in the order of
/// the tables, that names it.
pub proof fn an_import_is_found(m: ElfImage, sym: Seq<u8>, t: int, e: int)
    requires
        0 <= t < m.rela.len(),
        forall|j: int| 0 <= j <= t ==> (#[trigger] m.table_bytes(j)) is Some,
        forall|j: int, x: int|
            0 <= j < t && 0 <= x && 24 * (x + 1) <= m.table_bytes(j)->0.len() ==> !m.names(
                #[trigger] record_at(m.table_bytes(j)->0, 24 * x),
                sym,
            ),
        0 <= e,
        24 * (e + 1) <= m.table_bytes(t)->0.len(),
        m.names(record_at(m.table_bytes(t)->0, 24 * e), sym),
        forall|x: int|
            0 <= x < e ==> !m.names(#[trigger] record_at(m.table_bytes(t)->0, 24 * x), sym),
    ensures
        m.slot_from(sym, 0) == Some(record_at(m.table_bytes(t)->0, 24 * e).slot),
{
    import_is(m, sym, 0, t, e);
}

proof fn import_is(m: ElfImage, sym: Seq<u8>, from: int, t: int, e: int)
    requires
        0 <= from <= t < m.rela.len(),
        forall|j: int| 0 <= j <= t ==> (#[trigger] m.table_bytes(j)) is Some,
        forall|j: int, x: int|
            0 <= j < t && 0 <= x && 24 * (x + 1) <= m.table_bytes(j)->0.len() ==> !m.names(
                #[trigger] record_at(m.table_bytes(j)->0, 24 * x),
                sym,
            ),
        0 <= e,
        24 * (e + 1) <= m.table_bytes(t)->0.len(),
        m.names(record_at(m.table_bytes(t)->0, 24 * e), sym),
        forall|x: int|
            0 <= x < e ==> !m.names(#[trigger] record_at(m.table_bytes(t)->0, 24 * x), sym),
    ensures
        m.slot_from(sym, from) == Some(record_at(m.table_bytes(t)->0, 24 * e).slot),
    decreases t - from,
{
    assert(m.table_bytes(from) is Some);
    let b = m.table_bytes(from)->0;
    if from < t {
        assert forall|x: int| 0 <= x && 24 * (x + 1) <= b.len() implies !m.names(
            #[trigger] record_at(b, 24 * x),
            sym,
        ) by {}
        nothing_named(m, b, sym, 0);
        import_is(m, sym, from + 1, t, e);
    } else {
        record_found(m, b, sym, 0, e);
    }
}

proof fn nothing_named(m: ElfImage, b: Seq<u8>, sym: Seq<u8>, e: int)
    requires
        0 <= e,
        forall|x: int|
            0 <= x && 24 * (x + 1) <= b.len() ==> !m.names(#[trigger] record_at(b, 24 * x), sym),
    ensures
        m.table_slot(b, sym, e) is None,
    decreases b.len() - 24 * e,
{
    if 24 * (e + 1) <= b.len() {
        assert(!m.names(record_at(b, 24 * e), sym));
        nothing_named(m, b, sym, e + 1);
    }
}

proof fn record_found(m: ElfImage, b: Seq<u8>, sym: Seq<u8>, from: int, e: int)
    requires
        0 <= from <= e,
        24 * (e + 1) <= b.len(),
        m.names(record_at(b, 24 * e), sym),
        forall|x: int| 0 <= x < e ==> !m.names(#[trigger] record_at(b, 24 * x), sym),
    ensures
        m.table_slot(b, sym, from) == Some(record_at(b, 24 * e).slot),
    decreases e - from,
{
    if from < e {
        assert(!m.names(record_at(b, 24 * from), sym));
        record_found(m, b, sym, from + 1, e);
    }
}

/// Every loadable program header is a segment: its offset, address, sizes and
/// flags stand where a 64-bit header has them.
pub proof fn every_segment_is_read(file: Seq<u8>, n: int, i: int)
    requires
        0 <= i < n,
        le32(file, ph_at(file, i)) == 1,
    ensures
        exists|k: int|
            0 <= k < load_segs(file, n).len() && (#[trigger] load_segs(file, n)[k]).off == le64(
                file,
                ph_at(file, i) + 8,
            ) && load_segs(file, n)[k].va == le64(file, ph_at(file, i) + 16) && load_segs(
                file,
                n,
            )[k].fsz == le64(file, ph_at(file, i) + 32) && load_segs(file, n)[k].msz == le64(
                file,
                ph_at(file, i) + 40,
            ) && load_segs(file, n)[k].flags == le32(file, ph_at(file, i) + 4),
    decreases n,
{
    let all = load_segs(file, n);
    let before = load_segs(file, n - 1);
    if i < n - 1 {
        every_segment_is_read(file, n - 1, i);
        let k = choose|k: int|
            0 <= k < before.len() && (#[trigger] before[k]).off == le64(file, ph_at(file, i) + 8)
                && before[k].va == le64(file, ph_at(file, i) + 16) && before[k].fsz == le64(
                file,
                ph_at(file, i) + 32,
            ) && before[k].msz == le64(file, ph_at(file, i) + 40) && before[k].flags == le32(
                file,
                ph_at(file, i) + 4,
            );
        assert(all[k] == before[k]);
    } else {
        le_bounds(file, ph_at(file, i) + 4);
        le_bounds(file, ph_at(file, i) + 8);
        le_bounds(file, ph_at(file, i) + 16);
        le_bounds(file, ph_at(file, i) + 32);
        le_bounds(file, ph_at(file, i) + 40);
        let k = before.len() as int;
        assert(all[k].off == le64(file, ph_at(file, i) + 8));
    }
}

/// Program headers stand one after the other from where the file header says.
pub proof fn headers_follow_each_other(file: Seq<u8>, i: int)
    ensures
        ph_at(file, 0) == le64(file, 32),
        ph_at(file, i + 1) == ph_at(file, i) + le16(file, 54),
{
    assert((i + 1) * le16(file, 54) == i * le16(file, 54) + le16(file, 54)) by (nonlinear_arith);
}

/// A dynamic entry gives its value, wherever it stands before the null entry.
pub proof fn a_dynamic_entry_is_read(b: Seq<u8>, n: int, tag: u64, default: int, i: int)
    requires
        0 <= i < n,
        le64(b, 16 * i) == tag,
        forall|j: int| i < j < n ==> #[trigger] le64(b, 16 * j) != tag,
    ensures
        dyn_value(b, n, tag, default) == le64(b, 16 * i + 8),
    decreases n,
{
    if i < n - 1 {
        assert(le64(b, 16 * (n - 1)) != tag);
        a_dynamic_entry_is_read(b, n - 1, tag, default, i);
    }
}

/// The dynamic entries end at the null tag.
pub proof fn dynamic_entries_end_at_null(b: Seq<u8>, i: int, n: int)
    requires
        0 <= i <= n < b.len() as int / 16,
        le64(b, 16 * n) == 0,
        forall|j: int| i <= j < n ==> #[trigger] le64(b, 16 * j) != 0,
    ensures
        dyn_count(b, i) == n,
    decreases n - i,
{
    if i < n {
        assert(le64(b, 16 * i) != 0);
        dynamic_entries_end_at_null(b, i + 1, n);
    }
}

/// The tables that a dynamic section names: seven and eight tell the one of
/// relocations, twenty-three and two the one of imports.
pub proof fn tables_are_named(b: Seq<u8>, n: int)
    ensures
        dyn_value(b, n, 7, 0) as u64 != 0 && dyn_value(b, n, 8, 0) as u64 != 0 ==> rela_tables(
            b,
            n,
        ).contains((dyn_value(b, n, 7, 0) as u64, dyn_value(b, n, 8, 0) as u64)),
        dyn_value(b, n, 23, 0) as u64 != 0 && dyn_value(b, n, 2, 0) as u64 != 0 ==> rela_tables(
            b,
            n,
        ).contains((dyn_value(b, n, 23, 0) as u64, dyn_value(b, n, 2, 0) as u64)),
{
    let r = rela_tables(b, n);
    let first = dyn_value(b, n, 7, 0) as u64 != 0 && dyn_value(b, n, 8, 0) as u64 != 0;
    if first {
        assert(r[0] == (dyn_value(b, n, 7, 0) as u64, dyn_value(b, n, 8, 0) as u64));
    }
    if dyn_value(b, n, 23, 0) as u64 != 0 && dyn_value(b, n, 2, 0) as u64 != 0 {
        let k: int = if first {
            1
        } else {
            0
        };
        assert(r[k] == (dyn_value(b, n, 23, 0) as u64, dyn_value(b, n, 2, 0) as u64));
    }
}

/// An import is named by a record of type six or seven, by the symbol in the
/// upper half of its word, whose name ends with a NUL.
pub proof fn an_import_is_named(m: ElfImage, r: RelaEntry, sym: Seq<u8>, entry: Seq<u8>, buf: Seq<u8>)
    requires
        r.info % 0x1_0000_0000 == 6 || r.info % 0x1_0000_0000 == 7,
        m.symtab != 0,
        m.strtab != 0,
        m.read_va(m.symtab + (r.info / 0x1_0000_0000) * m.syment, 4) == Some(entry),
        m.read_up_to(m.strtab + le32(entry, 0), 96) == Some(buf),
        c_prefix(buf, 0) == Some(sym),
    ensures
        m.names(r, sym),
{
}

/// A module is parsed where the file starts with `\x7fELF` and a class of 64
/// bits, holds its program headers, and these name a segment to load and a
/// dynamic section that it holds.
pub proof fn a_module_is_parsed(file: Seq<u8>, i: int, j: int)
    requires
        file.len() >= 64,
        file[0] == 0x7f,
        file[1] == 'E' as u8,
        file[2] == 'L' as u8,
        file[3] == 'F' as u8,
        file[4] == 2,
        le16(file, 54) >= 56,
        forall|k: int| 0 <= k < le16(file, 56) ==> #[trigger] ph_at(file, k) + 56 <= file.len(),
        0 <= i < le16(file, 56),
        le32(file, ph_at(file, i)) == 1,
        0 <= j < le16(file, 56),
        le32(file, ph_at(file, j)) == 2,
        forall|k: int|
            j < k < le16(file, 56) ==> le32(file, #[trigger] ph_at(file, k)) != 2,
        le64(file, ph_at(file, j) + 8) + le64(file, ph_at(file, j) + 32) <= file.len(),
    ensures
        parse_elf(file) matches Some(m) && m.file == file && m.segs == load_segs(
            file,
            le16(file, 56),
        ) && m.segs.len() > 0,
{
    every_segment_is_read(file, le16(file, 56), i);
    last_dynamic(file, le16(file, 56), j);
    le_bounds(file, ph_at(file, j) + 8);
    le_bounds(file, ph_at(file, j) + 32);
}

proof fn last_dynamic(file: Seq<u8>, n: int, j: int)
    requires
        0 <= j < n,
        le32(file, ph_at(file, j)) == 2,
        forall|k: int| j < k < n ==> le32(file, #[trigger] ph_at(file, k)) != 2,
    ensures
        dynamic_of(file, n) == Some(
            (le64(file, ph_at(file, j) + 8), le64(file, ph_at(file, j) + 32)),
        ),
    decreases n,
{
    if j < n - 1 {
        assert(le32(file, ph_at(file, n - 1)) != 2);
        last_dynamic(file, n - 1, j);
    }
}

/// What a parsed module holds is what its dynamic section names: the tables of
/// relocations, the symbols, the strings, and the size of a symbol.
pub proof fn the_dynamic_section_is_read(file: Seq<u8>, off: int, size: int)
    requires
        parse_elf(file) is Some,
        dynamic_of(file, le16(file, 56)) == Some((off, size)),
    ensures
        ({
            let m = parse_elf(file)->0;
            let b = file.subrange(off, off + size);
            let n = dyn_count(b, 0);
            &&& m.rela == rela_tables(b, n)
            &&& m.symtab == dyn_value(b, n, 6, 0) as u64
            &&& m.strtab == dyn_value(b, n, 5, 0) as u64
            &&& m.syment == dyn_value(b, n, 11, 24) as u64
        }),
{
}

/// The code of a module is what its executable segments hold in memory.
pub proof fn code_is_executable(m: ElfImage, i: int, va: int)
    requires
        0 <= i < m.segs.len(),
        m.segs[i].flags & 1 != 0,
        m.segs[i].va <= va < m.segs[i].va + m.segs[i].msz,
    ensures
        m.is_exec(va),
{
    assert(m.segs[i].flags & PF_X != 0);
}

/// What is no executable segment's is no code.
pub proof fn data_is_not_code(m: ElfImage, va: int)
    requires
        forall|i: int|
            0 <= i < m.segs.len() && m.segs[i].va <= va < m.segs[i].va + m.segs[i].msz ==> (
            #[trigger] m.segs[i]).flags & 1 == 0,
    ensures
        !m.is_exec(va),
{
    if m.is_exec(va) {
        let i = choose|i: int|
            0 <= i < m.segs.len() && (#[trigger] m.segs[i]).flags & PF_X != 0 && m.segs[i].va <= va
                < m.segs[i].va + m.segs[i].msz;
        assert(m.segs[i].flags & 1 == 0);
    }
}

/// An address has its place in the file through the first segment whose file
/// contents hold it, and what is read there without a fixed length ends with
/// that segment.
pub proof fn addresses_have_their_place(m: ElfImage, i: int, va: int, max: int)
    requires
        0 <= i < m.segs.len(),
        0 <= va <= u64::MAX,
        m.segs[i].va <= va < m.segs[i].va + m.segs[i].fsz,
        forall|j: int|
            0 <= j < i ==> !((#[trigger] m.segs[j]).va <= va < m.segs[j].va + m.segs[j].fsz),
        0 < max,
        m.segs[i].off + m.segs[i].fsz <= m.file.len(),
    ensures
        m.v2o(va) == Some(m.segs[i].off + (va - m.segs[i].va)),
        ({
            let off = m.segs[i].off + (va - m.segs[i].va);
            let room = m.segs[i].va + m.segs[i].fsz - va;
            m.read_up_to(va, max) == Some(
                m.file.subrange(
                    off,
                    off + if room < max {
                        room
                    } else {
                        max
                    },
                ),
            )
        }),
{
    first_holder(m.segs, va, 0, i);
}

proof fn first_holder(segs: Seq<Seg>, va: int, from: int, i: int)
    requires
        0 <= from <= i < segs.len(),
        segs[i].va <= va < segs[i].va + segs[i].fsz,
        forall|j: int| 0 <= j < i ==> !((#[trigger] segs[j]).va <= va < segs[j].va + segs[j].fsz),
    ensures
        seg_offset(segs, va, from) == Some(segs[i].off + (va - segs[i].va)),
        seg_room(segs, va, from) == segs[i].va + segs[i].fsz - va,
    decreases i - from,
{
    if from < i {
        assert(!(segs[from].va <= va < segs[from].va + segs[from].fsz));
        first_holder(segs, va, from + 1, i);
    }
}

/// A word is read from its eight bytes, unsigned or signed.
pub proof fn words_are_read(m: ElfImage, va: int, b: Seq<u8>)
    ensures
        m.read_va(va, 8) == Some(b) ==> m.u64_va(va) == Some(le64(b, 0)) && m.i64_va(va) == Some(
            signed64(le64(b, 0)),
        ),
        m.read_va(va, 8) is None ==> m.u64_va(va) is None && m.i64_va(va) is None,
{
}

/// A table is read whole from its place.
pub proof fn tables_are_read(m: ElfImage, t: int, o: int)
    requires
        0 <= t < m.rela.len(),
        m.v2o(m.rela[t].0 as int) == Some(o),
        0 <= o,
        o + m.rela[t].1 <= m.file.len(),
    ensures
        m.table_bytes(t) == Some(m.file.subrange(o, o + m.rela[t].1)),
{
}

/// A record is read from its 24 bytes: slot, word and addend.
pub proof fn records_are_read(b: Seq<u8>, at: int)
    ensures
        record_at(b, at).slot == le64(b, at),
        record_at(b, at).info == le64(b, at + 8),
        record_at(b, at).addend == le64(b, at + 16),
{
}

} // verus!
