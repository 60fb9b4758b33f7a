//! Minimal PE32+ reader for resolving code, exports and MSVC RTTI by identity.
//!
//! Windows hooks use RVAs derived from the module file, then add the live load
//! address after validating the loaded bytes: game updates may move code, but
//! no caller writes to an unverified absolute address.
use vstd::prelude::*;
use vstd::utf8::{encode_utf8, valid_utf8};

use crate::bytes::{
    c_prefix, c_string, holds, increasing, le16, le32, le64, le_bytes64, le_bytes64_read_back,
    occurs_at, push_u64, rd_u16, rd_u32, rd_u64, same_bytes,
};
use crate::scan::{
    file_bytes, find_all, hit, scan_invents_nothing, scan_misses_nothing, slice_at, window_has,
    window_views, windows, windows_from, windows_hold_every_stretch, Extent,
};
use crate::text::utf8_string;

verus! {

pub const IMAGE_FILE_MACHINE_AMD64: u16 = 0x8664;

pub const PE32_PLUS_MAGIC: u16 = 0x20b;

pub const IMAGE_SCN_MEM_EXECUTE: u32 = 0x2000_0000;

pub const IMAGE_SCN_MEM_READ: u32 = 0x4000_0000;

pub const IMAGE_SCN_MEM_WRITE: u32 = 0x8000_0000;

/// How many bytes of an export name are read.
pub const NAME_BYTES: usize = 256;

/// Bytes of a Complete Object Locator past its first.
pub const LOCATOR_TAIL: usize = 23;

/// Which PE sections a scan should visit.
#[derive(Copy, Clone, Eq, PartialEq, Structural)]
pub enum Access {
    /// Executable image sections.
    Code,
    /// Read-only, non-executable image sections.
    Rodata,
    /// Writable image sections.
    Data,
}

impl Access {
    /// Whether sections with these characteristics are wanted.
    pub open spec fn wants(self, characteristics: u32) -> bool {
        match self {
            Access::Code => characteristics & IMAGE_SCN_MEM_EXECUTE != 0,
            Access::Rodata => characteristics & IMAGE_SCN_MEM_READ != 0 && characteristics
                & IMAGE_SCN_MEM_EXECUTE == 0 && characteristics & IMAGE_SCN_MEM_WRITE == 0,
            Access::Data => characteristics & IMAGE_SCN_MEM_WRITE != 0,
        }
    }

    /// Whether sections with these characteristics are wanted.
    pub fn matches(self, characteristics: u32) -> (r: bool)
        ensures
            r == self.wants(characteristics),
    {
        match self {
            Access::Code => characteristics & IMAGE_SCN_MEM_EXECUTE != 0,
            Access::Rodata => characteristics & IMAGE_SCN_MEM_READ != 0 && characteristics
                & IMAGE_SCN_MEM_EXECUTE == 0 && characteristics & IMAGE_SCN_MEM_WRITE == 0,
            Access::Data => characteristics & IMAGE_SCN_MEM_WRITE != 0,
        }
    }
}

/// A section: address and size in memory, offset and size in the file.
#[derive(Copy, Clone)]
pub struct Section {
    pub rva: u32,
    pub virtual_size: u32,
    pub raw: u32,
    pub raw_size: u32,
    pub characteristics: u32,
}

/// One x64 MSVC vtable found through its Complete Object Locator.
#[derive(Clone, Copy, Debug, Eq, PartialEq, Structural)]
pub struct Vtable {
    /// RVA of virtual slot zero, which is also the value stored in an object.
    pub rva: u64,
    /// Complete Object Locator offset for this subobject; zero is primary.
    pub object_offset: u32,
}

/// What a parsed module holds.
pub struct PeImage {
    pub data: Seq<u8>,
    pub image_base: u64,
    pub image_size: u32,
    pub sections: Seq<Section>,
    pub export_rva: u32,
    pub export_size: u32,
}

/// File offset of the optional header.
pub open spec fn optional_at(d: Seq<u8>) -> int {
    le32(d, 0x3c) + 24
}

/// File offset of the section table.
pub open spec fn section_table(d: Seq<u8>) -> int {
    optional_at(d) + le16(d, le32(d, 0x3c) + 20)
}

/// How many sections the file header announces.
pub open spec fn section_count(d: Seq<u8>) -> int {
    le16(d, le32(d, 0x3c) + 6)
}

/// Entry `i` of the section table.
pub open spec fn section_at(d: Seq<u8>, i: int) -> Section {
    let at = section_table(d) + 40 * i;
    Section {
        virtual_size: le32(d, at + 8) as u32,
        rva: le32(d, at + 12) as u32,
        raw_size: le32(d, at + 16) as u32,
        raw: le32(d, at + 20) as u32,
        characteristics: le32(d, at + 36) as u32,
    }
}

/// The file starts with the headers of an AMD64 PE32+ image.
pub open spec fn pe_header(d: Seq<u8>) -> bool {
    let pe = le32(d, 0x3c);
    &&& d.len() >= 0x40
    &&& d[0] == 0x4d
    &&& d[1] == 0x5a
    &&& optional_at(d) + 120 <= d.len()
    &&& d[pe] == 0x50
    &&& d[pe + 1] == 0x45
    &&& d[pe + 2] == 0
    &&& d[pe + 3] == 0
    &&& le16(d, pe + 4) == IMAGE_FILE_MACHINE_AMD64
    &&& le16(d, optional_at(d)) == PE32_PLUS_MAGIC
    &&& le16(d, pe + 20) >= 120
}

/// What parsing a file gives, or `None` for anything that is not an AMD64
/// PE32+ image whose sections the file holds.
pub open spec fn parse_pe(d: Seq<u8>) -> Option<PeImage> {
    let n = section_count(d);
    if pe_header(d) && section_table(d) + 40 * n <= d.len() && n > 0 && le32(d, optional_at(d) + 56)
        != 0 && forall|i: int|
        0 <= i < n ==> (#[trigger] section_at(d, i)).raw_size == 0 || section_at(d, i).raw
            + section_at(d, i).raw_size <= d.len() {
        Some(
            PeImage {
                data: d,
                image_base: le64(d, optional_at(d) + 24) as u64,
                image_size: le32(d, optional_at(d) + 56) as u32,
                sections: Seq::new(n as nat, |i: int| section_at(d, i)),
                export_rva: le32(d, optional_at(d) + 112) as u32,
                export_size: le32(d, optional_at(d) + 116) as u32,
            },
        )
    } else {
        None
    }
}

/// The lowest nonzero file offset among the first `n` sections.
pub open spec fn first_raw(sections: Seq<Section>, n: int) -> Option<int>
    decreases n,
{
    if n <= 0 {
        None
    } else {
        let raw = sections[n - 1].raw as int;
        match first_raw(sections, n - 1) {
            None => if raw != 0 {
                Some(raw)
            } else {
                None
            },
            Some(low) => if raw != 0 && raw < low {
                Some(raw)
            } else {
                Some(low)
            },
        }
    }
}

/// File offset of an RVA, through the first section from `i` on whose file
/// contents hold it.
pub open spec fn section_offset(sections: Seq<Section>, rva: int, i: int) -> Option<int>
    decreases sections.len() - i,
{
    if i < 0 || i >= sections.len() {
        None
    } else if sections[i].rva <= rva < sections[i].rva + sections[i].raw_size {
        Some(sections[i].raw + (rva - sections[i].rva))
    } else {
        section_offset(sections, rva, i + 1)
    }
}

/// The wanted ones of the first `n` sections, as stretches of the file.
pub open spec fn wanted(sections: Seq<Section>, want: Access, n: int) -> Seq<Extent>
    decreases n,
{
    if n <= 0 {
        Seq::empty()
    } else if want.wants(sections[n - 1].characteristics) {
        wanted(sections, want, n - 1).push(
            Extent {
                off: sections[n - 1].raw as u64,
                va: sections[n - 1].rva as u64,
                len: sections[n - 1].raw_size as u64,
            },
        )
    } else {
        wanted(sections, want, n - 1)
    }
}

/// Section `i` exists and is writable.
pub open spec fn is_writable(sections: Seq<Section>, i: int) -> bool {
    0 <= i < sections.len() && sections[i].characteristics & IMAGE_SCN_MEM_WRITE != 0
}

impl PeImage {
    /// File offset of an RVA: the headers map directly, the rest by section.
    pub open spec fn rva_to_offset(self, rva: int) -> Option<int> {
        match first_raw(self.sections, self.sections.len() as int) {
            None => None,
            Some(low) => if 0 <= rva < low && rva < self.data.len() {
                Some(rva)
            } else {
                section_offset(self.sections, rva, 0)
            },
        }
    }

    /// The `len` file bytes from where an RVA stands in the file. Only the first
    /// of them is held against the sections: the rest is what follows in the
    /// file.
    pub open spec fn read_rva(self, rva: int, len: int) -> Option<Seq<u8>> {
        match self.rva_to_offset(rva) {
            None => None,
            Some(off) => file_bytes(self.data, off, len),
        }
    }

    /// The word at an RVA.
    pub open spec fn pointer_rva(self, rva: int) -> Option<int> {
        match self.read_rva(rva, 8) {
            None => None,
            Some(b) => Some(le64(b, 0)),
        }
    }

    /// The RVA of a preferred address inside the image.
    pub open spec fn va_to_rva(self, va: int) -> Option<int> {
        if self.image_base <= va < self.image_base + self.image_size {
            Some(va - self.image_base)
        } else {
            None
        }
    }

    /// The RVA belongs to an executable section.
    pub open spec fn is_exec(self, rva: int) -> bool {
        exists|i: int|
            0 <= i < self.sections.len() && (#[trigger] self.sections[i]).characteristics
                & IMAGE_SCN_MEM_EXECUTE != 0 && self.sections[i].rva <= rva < self.sections[i].rva
                + self.sections[i].virtual_size
    }

    /// The wanted sections as stretches of the file.
    pub open spec fn extents(self, want: Access) -> Seq<Extent> {
        wanted(self.sections, want, self.sections.len() as int)
    }

    /// `needle` stands at RVA `v` in the wanted sections, within reach of a
    /// scan.
    pub open spec fn hit(self, needle: Seq<u8>, want: Access, v: int) -> bool {
        hit(self.data, self.extents(want), needle, v)
    }

    /// The bytes of a NUL-terminated UTF-8 string at an RVA, if `max` bytes
    /// can be read there.
    pub open spec fn cstr_rva(self, rva: int, max: int) -> Option<Seq<u8>> {
        match self.read_rva(rva, max) {
            None => None,
            Some(b) => match c_prefix(b, 0) {
                Some(s) => if valid_utf8(s) {
                    Some(s)
                } else {
                    None
                },
                None => None,
            },
        }
    }

    /// The exported code that the name at index `i` stands for: not past the
    /// function table or the image, and no forwarder string.
    pub open spec fn export_target(self, dir: Seq<u8>, i: int) -> Option<int> {
        match self.read_rva(le32(dir, 36) + 2 * i, 2) {
            None => None,
            Some(o) => {
                let ordinal = le16(o, 0);
                if ordinal >= le32(dir, 20) {
                    None
                } else {
                    match self.read_rva(le32(dir, 28) + 4 * ordinal, 4) {
                        None => None,
                        Some(f) => {
                            let rva = le32(f, 0);
                            if (self.export_rva <= rva < self.export_rva + self.export_size)
                                || rva >= self.image_size {
                                None
                            } else {
                                Some(rva)
                            }
                        },
                    }
                }
            },
        }
    }

    /// The export of the first name from `i` on that is `wanted`. A name that
    /// cannot be read ends the search.
    pub open spec fn export_from(self, dir: Seq<u8>, wanted: Seq<u8>, i: int) -> Option<int>
        decreases le32(dir, 24) - i,
    {
        if i < 0 || i >= le32(dir, 24) {
            None
        } else {
            match self.read_rva(le32(dir, 32) + 4 * i, 4) {
                None => None,
                Some(b) => match self.cstr_rva(le32(b, 0), NAME_BYTES as int) {
                    None => None,
                    Some(name) => if name == wanted {
                        self.export_target(dir, i)
                    } else {
                        self.export_from(dir, wanted, i + 1)
                    },
                },
            }
        }
    }

    /// The RVA of a named export.
    pub open spec fn export(self, wanted: Seq<u8>) -> Option<int> {
        if self.export_rva == 0 || self.export_size < 40 {
            None
        } else {
            match self.read_rva(self.export_rva as int, 40) {
                None => None,
                Some(dir) => self.export_from(dir, wanted, 0),
            }
        }
    }

    /// `td` is the RVA of a TypeDescriptor with this name: the name stands 16
    /// bytes into it, in read-only or writable data.
    pub open spec fn is_type(self, name: Seq<u8>, td: int) -> bool {
        &&& 0 <= td
        &&& self.hit(name.push(0u8), Access::Rodata, td + 16) || self.hit(
            name.push(0u8),
            Access::Data,
            td + 16,
        )
    }

    /// A Complete Object Locator of the class stands at `rva` of the scan
    /// window that starts at `base`: signature one, the class's
    /// TypeDescriptor, its own RVA, and the subobject offset.
    pub open spec fn locator_in(
        self,
        name: Seq<u8>,
        base: u64,
        b: Seq<u8>,
        rva: int,
        offset: int,
    ) -> bool {
        let i = rva - base;
        &&& 0 <= i
        &&& i + LOCATOR_TAIL < b.len()
        &&& i % 4 == 0
        &&& le32(b, i) == 1
        &&& le32(b, i + 4) == offset
        &&& self.is_type(name, le32(b, i + 12))
        &&& le32(b, i + 20) == rva
    }

    /// A Complete Object Locator of the class stands at `rva`.
    pub open spec fn is_locator(self, name: Seq<u8>, rva: int, offset: int) -> bool {
        let ws = windows_from(self.data, self.extents(Access::Rodata), LOCATOR_TAIL as nat, 0);
        exists|w: int|
            0 <= w < ws.len() && #[trigger] self.locator_in(name, ws[w].0, ws[w].1, rva, offset)
    }

    /// The pointer bytes that refer to a locator.
    pub open spec fn locator_pointer(self, locator: int) -> Seq<u8> {
        le_bytes64(
            if self.image_base + locator <= u64::MAX {
                self.image_base + locator
            } else {
                u64::MAX as int
            },
        )
    }

    /// Code stands in the slot at `rva`.
    pub open spec fn code_slot(self, rva: int) -> bool {
        self.pointer_rva(rva) matches Some(va) && self.va_to_rva(va) matches Some(f)
            && self.is_exec(f)
    }

    /// `rva` is virtual slot zero of a vtable of the class, for the subobject
    /// at `offset`: the word before it refers to a locator of the class, and
    /// code stands in it.
    pub open spec fn is_vtable(self, name: Seq<u8>, rva: int, offset: int) -> bool {
        &&& self.code_slot(rva)
        &&& exists|locator: int|
            #[trigger] self.is_locator(name, locator, offset) && self.hit(
                self.locator_pointer(locator),
                Access::Rodata,
                rva - 8,
            )
    }

    /// The code that virtual `index` of a vtable points at.
    pub open spec fn vfn(self, vtable: int, index: int) -> Option<int> {
        match self.pointer_rva(vtable + 8 * index) {
            None => None,
            Some(va) => match self.va_to_rva(va) {
                Some(rva) => if self.is_exec(rva) {
                    Some(rva)
                } else {
                    None
                },
                None => None,
            },
        }
    }
}

/// A 64-bit Windows game module read from disk.
pub struct Module {
    data: Vec<u8>,
    image_base: u64,
    image_size: u32,
    sections: Vec<Section>,
    export_rva: u32,
    export_size: u32,
}

impl View for Module {
    type V = PeImage;

    closed spec fn view(&self) -> PeImage {
        PeImage {
            data: self.data@,
            image_base: self.image_base,
            image_size: self.image_size,
            sections: self.sections@,
            export_rva: self.export_rva,
            export_size: self.export_size,
        }
    }
}

impl Module {
    /// Parses an AMD64 PE32+ image.
    pub fn open(data: Vec<u8>) -> (r: Option<Module>)
        ensures
            match r {
                Some(m) => parse_pe(data@) == Some(m@),
                None => parse_pe(data@) is None,
            },
    {
        let d: &[u8] = data.as_slice();
        if d.len() < 0x40 || d[0] != 0x4d || d[1] != 0x5a {
            return None;
        }
        let header: u32 = rd_u32(d, 0x3c);
        if header as u64 + 144 > d.len() as u64 {
            return None;
        }
        let pe: usize = header as usize;
        if d[pe] != 0x50 || d[pe + 1] != 0x45 || d[pe + 2] != 0 || d[pe + 3] != 0 {
            return None;
        }
        if rd_u16(d, pe + 4) != IMAGE_FILE_MACHINE_AMD64 {
            return None;
        }
        let count: u16 = rd_u16(d, pe + 6);
        let optional_size: u16 = rd_u16(d, pe + 20);
        let optional: usize = pe + 24;
        if rd_u16(d, optional) != PE32_PLUS_MAGIC || optional_size < 120 {
            return None;
        }
        let image_base: u64 = rd_u64(d, optional + 24);
        let image_size: u32 = rd_u32(d, optional + 56);
        let export_rva: u32 = rd_u32(d, optional + 112);
        let export_size: u32 = rd_u32(d, optional + 116);
        if optional as u64 + optional_size as u64 + 40 * (count as u64) > d.len() as u64 {
            return None;
        }
        let table: usize = optional + optional_size as usize;
        let mut sections: Vec<Section> = Vec::new();
        let mut i: usize = 0;
        while i < count as usize
            invariant
                i <= count,
                d@ == data@,
                pe_header(d@),
                table == section_table(d@),
                count == section_count(d@),
                table + 40 * count <= d.len(),
                sections@.len() == i,
                forall|j: int| 0 <= j < i ==> #[trigger] sections@[j] == section_at(d@, j),
                forall|j: int|
                    0 <= j < i ==> (#[trigger] section_at(d@, j)).raw_size == 0 || section_at(
                        d@,
                        j,
                    ).raw + section_at(d@, j).raw_size <= d@.len(),
            decreases count - i,
        {
            let at: usize = table + 40 * i;
            let virtual_size: u32 = rd_u32(d, at + 8);
            let rva: u32 = rd_u32(d, at + 12);
            let raw_size: u32 = rd_u32(d, at + 16);
            let raw: u32 = rd_u32(d, at + 20);
            let characteristics: u32 = rd_u32(d, at + 36);
            let section: Section = Section { rva, virtual_size, raw, raw_size, characteristics };
            assert(section == section_at(d@, i as int));
            if raw_size != 0 && raw as u64 + raw_size as u64 > d.len() as u64 {
                return None;
            }
            sections.push(section);
            i = i + 1;
        }
        if sections.len() == 0 || image_size == 0 {
            return None;
        }
        assert(sections@ =~= Seq::new(
            section_count(d@) as nat,
            |i: int| section_at(d@, i),
        ));
        Some(Module { data, image_base, image_size, sections, export_rva, export_size })
    }

    /// Size of the module file.
    pub fn file_len(&self) -> (r: usize)
        ensures
            r == self@.data.len(),
    {
        self.data.len()
    }

    /// Preferred image base recorded in the optional header.
    pub fn image_base(&self) -> (r: u64)
        ensures
            r == self@.image_base,
    {
        self.image_base
    }

    /// Size of the mapped image.
    pub fn image_size(&self) -> (r: u64)
        ensures
            r == self@.image_size,
    {
        self.image_size as u64
    }

    /// File offset of an RVA.
    fn rva_to_offset(&self, rva: u64) -> (r: Option<u64>)
        ensures
            match r {
                Some(o) => self@.rva_to_offset(rva as int) == Some(o as int),
                None => self@.rva_to_offset(rva as int) is None,
            },
    {
        let mut low: Option<u64> = None;
        let mut i: usize = 0;
        while i < self.sections.len()
            invariant
                i <= self.sections@.len(),
                match low {
                    Some(v) => first_raw(self.sections@, i as int) == Some(v as int),
                    None => first_raw(self.sections@, i as int) is None,
                },
            decreases self.sections@.len() - i,
        {
            let raw: u64 = self.sections[i].raw as u64;
            if raw != 0 {
                low = match low {
                    None => Some(raw),
                    Some(v) => if raw < v {
                        Some(raw)
                    } else {
                        Some(v)
                    },
                };
            }
            i = i + 1;
        }
        match low {
            None => {
                return None;
            },
            Some(v) => {
                if rva < v && rva < self.data.len() as u64 {
                    return Some(rva);
                }
            },
        }
        let mut i: usize = 0;
        while i < self.sections.len()
            invariant
                i <= self.sections@.len(),
                self@.rva_to_offset(rva as int) == section_offset(
                    self.sections@,
                    rva as int,
                    i as int,
                ),
            decreases self.sections@.len() - i,
        {
            let s: Section = self.sections[i];
            if rva >= s.rva as u64 && rva - (s.rva as u64) < s.raw_size as u64 {
                return Some(s.raw as u64 + (rva - s.rva as u64));
            }
            i = i + 1;
        }
        None
    }

    /// Reads file-backed bytes at an RVA. Only the start has to lie in a section
    /// or the headers: the read goes on in the file past the end of a section,
    /// and ends with the file.
    pub fn read_rva(&self, rva: u64, len: usize) -> (r: Option<&[u8]>)
        ensures
            match r {
                Some(b) => self@.read_rva(rva as int, len as int) == Some(b@),
                None => self@.read_rva(rva as int, len as int) is None,
            },
    {
        match self.rva_to_offset(rva) {
            Some(off) => slice_at(self.data.as_slice(), off, len),
            None => None,
        }
    }

    /// Reads a little-endian pointer at an RVA.
    pub fn pointer_rva(&self, rva: u64) -> (r: Option<u64>)
        ensures
            match r {
                Some(v) => self@.pointer_rva(rva as int) == Some(v as int),
                None => self@.pointer_rva(rva as int) is None,
            },
    {
        match self.read_rva(rva, 8) {
            Some(b) => Some(rd_u64(b, 0)),
            None => None,
        }
    }

    /// Converts a preferred virtual address stored in the file into an RVA.
    pub fn va_to_rva(&self, va: u64) -> (r: Option<u64>)
        ensures
            match r {
                Some(v) => self@.va_to_rva(va as int) == Some(v as int),
                None => self@.va_to_rva(va as int) is None,
            },
    {
        if va >= self.image_base && va - self.image_base < self.image_size as u64 {
            Some(va - self.image_base)
        } else {
            None
        }
    }

    /// True when an RVA belongs to an executable section.
    pub fn is_exec(&self, rva: u64) -> (r: bool)
        ensures
            r == self@.is_exec(rva as int),
    {
        let mut i: usize = 0;
        while i < self.sections.len()
            invariant
                i <= self.sections@.len(),
                forall|j: int|
                    0 <= j < i ==> !((#[trigger] self@.sections[j]).characteristics
                        & IMAGE_SCN_MEM_EXECUTE != 0 && self@.sections[j].rva <= rva
                        < self@.sections[j].rva + self@.sections[j].virtual_size),
            decreases self.sections@.len() - i,
        {
            let s: Section = self.sections[i];
            if s.characteristics & IMAGE_SCN_MEM_EXECUTE != 0 && rva >= s.rva as u64 && rva
                < s.rva as u64 + s.virtual_size as u64 {
                assert(self@.sections[i as int] == s);
                return true;
            }
            i = i + 1;
        }
        false
    }

    /// Mapped RVA span of writable sections, including zero-filled tails.
    pub fn writable_span(&self) -> (r: Option<(u64, u64)>)
        ensures
            match r {
                Some((lo, hi)) => {
                    &&& lo <= hi
                    &&& exists|i: int|
                        is_writable(self@.sections, i) && self@.sections[i].rva == lo
                    &&& exists|i: int|
                        is_writable(self@.sections, i) && self@.sections[i].rva
                            + self@.sections[i].virtual_size == hi
                    &&& forall|i: int|
                        is_writable(self@.sections, i) ==> lo <= self@.sections[i].rva
                            && self@.sections[i].rva + self@.sections[i].virtual_size <= hi
                },
                None => forall|i: int| !is_writable(self@.sections, i),
            },
    {
        let mut span: Option<(u64, u64)> = None;
        let mut i: usize = 0;
        while i < self.sections.len()
            invariant
                i <= self@.sections.len(),
                match span {
                    Some((lo, hi)) => {
                        &&& lo <= hi
                        &&& exists|j: int|
                            j < i && is_writable(self@.sections, j) && self@.sections[j].rva == lo
                        &&& exists|j: int|
                            j < i && is_writable(self@.sections, j) && self@.sections[j].rva
                                + self@.sections[j].virtual_size == hi
                        &&& forall|j: int|
                            j < i && is_writable(self@.sections, j) ==> lo
                                <= self@.sections[j].rva && self@.sections[j].rva
                                + self@.sections[j].virtual_size <= hi
                    },
                    None => forall|j: int| j < i ==> !is_writable(self@.sections, j),
                },
            decreases self.sections@.len() - i,
        {
            let s: Section = self.sections[i];
            assert(self@.sections[i as int] == s);
            if s.characteristics & IMAGE_SCN_MEM_WRITE != 0 {
                assert(is_writable(self@.sections, i as int));
                let start: u64 = s.rva as u64;
                let end: u64 = s.rva as u64 + s.virtual_size as u64;
                span = match span {
                    None => Some((start, end)),
                    Some((lo, hi)) => Some(
                        (
                            if start < lo {
                                start
                            } else {
                                lo
                            },
                            if end > hi {
                                end
                            } else {
                                hi
                            },
                        ),
                    ),
                };
            }
            i = i + 1;
        }
        assert(forall|j: int| is_writable(self@.sections, j) ==> j < i);
        span
    }

    /// The wanted sections as stretches of the file.
    fn extents(&self, want: Access) -> (r: Vec<Extent>)
        ensures
            r@ == self@.extents(want),
    {
        let mut out: Vec<Extent> = Vec::new();
        let mut i: usize = 0;
        while i < self.sections.len()
            invariant
                i <= self.sections@.len(),
                out@ == wanted(self.sections@, want, i as int),
            decreases self.sections@.len() - i,
        {
            let s: Section = self.sections[i];
            if want.matches(s.characteristics) {
                out.push(Extent { off: s.raw as u64, va: s.rva as u64, len: s.raw_size as u64 });
            }
            i = i + 1;
        }
        out
    }

    /// The requested file-backed sections in overlapping windows, each with
    /// the RVA of its first byte.
    pub fn scan(&self, want: Access, overlap: usize) -> (r: Vec<(u64, &[u8])>)
        ensures
            window_views(r@) == windows_from(
                self@.data,
                self@.extents(want),
                overlap as nat,
                0,
            ),
    {
        let all: Vec<Extent> = self.extents(want);
        windows(self.data.as_slice(), all.as_slice(), overlap)
    }

    /// Every RVA in `want` sections where `needle` occurs.
    fn find_all(&self, needle: &[u8], want: Access) -> (r: Vec<u64>)
        ensures
            increasing(r@),
            forall|v: u64| r@.contains(v) <==> self@.hit(needle@, want, v as int),
    {
        let all: Vec<Extent> = self.extents(want);
        find_all(self.data.as_slice(), all.as_slice(), needle)
    }

    /// The NUL-terminated UTF-8 string at an RVA.
    fn cstr_rva(&self, rva: u64, max: usize) -> (r: Option<String>)
        ensures
            match r {
                Some(s) => self@.cstr_rva(rva as int, max as int) == Some(encode_utf8(s@)),
                None => self@.cstr_rva(rva as int, max as int) is None,
            },
    {
        match self.read_rva(rva, max) {
            None => None,
            Some(b) => match c_string(b) {
                Some(s) => utf8_string(s),
                None => None,
            },
        }
    }

    /// RVA of a named PE export.
    pub fn export(&self, wanted: &str) -> (r: Option<u64>)
        ensures
            match r {
                Some(v) => self@.export(encode_utf8(wanted@)) == Some(v as int),
                None => self@.export(encode_utf8(wanted@)) is None,
            },
    {
        if self.export_rva == 0 || self.export_size < 40 {
            return None;
        }
        let dir: &[u8] = match self.read_rva(self.export_rva as u64, 40) {
            Some(dir) => dir,
            None => {
                return None;
            },
        };
        let name_count: u32 = rd_u32(dir, 24);
        let names: u64 = rd_u32(dir, 32) as u64;
        let name: &[u8] = wanted.as_bytes();
        let mut i: u32 = 0;
        while i < name_count
            invariant
                i <= name_count,
                dir@.len() == 40,
                name_count == le32(dir@, 24),
                names == le32(dir@, 32),
                name@ == encode_utf8(wanted@),
                self@.export(name@) == self@.export_from(dir@, name@, i as int),
            decreases name_count - i,
        {
            let name_rva: u64 = match self.read_rva(names + 4 * (i as u64), 4) {
                Some(b) => rd_u32(b, 0) as u64,
                None => {
                    return None;
                },
            };
            match self.cstr_rva(name_rva, NAME_BYTES) {
                None => {
                    return None;
                },
                Some(s) => {
                    if same_bytes(s.as_str().as_bytes(), name) {
                        return self.export_target(dir, i);
                    }
                },
            }
            i = i + 1;
        }
        None
    }

    /// The exported code that the name at index `i` stands for.
    fn export_target(&self, dir: &[u8], i: u32) -> (r: Option<u64>)
        requires
            dir@.len() == 40,
        ensures
            match r {
                Some(v) => self@.export_target(dir@, i as int) == Some(v as int),
                None => self@.export_target(dir@, i as int) is None,
            },
    {
        let function_count: u32 = rd_u32(dir, 20);
        let functions: u64 = rd_u32(dir, 28) as u64;
        let ordinals: u64 = rd_u32(dir, 36) as u64;
        let ordinal: u32 = match self.read_rva(ordinals + 2 * (i as u64), 2) {
            Some(b) => rd_u16(b, 0) as u32,
            None => {
                return None;
            },
        };
        if ordinal >= function_count {
            return None;
        }
        let rva: u64 = match self.read_rva(functions + 4 * (ordinal as u64), 4) {
            Some(b) => rd_u32(b, 0) as u64,
            None => {
                return None;
            },
        };
        let start: u64 = self.export_rva as u64;
        if (rva >= start && rva < start + self.export_size as u64) || rva
            >= self.image_size as u64 {
            None
        } else {
            Some(rva)
        }
    }

    /// RVA of virtual function `index` of a vtable.
    pub fn vfn(&self, vtable: u64, index: usize) -> (r: Option<u64>)
        ensures
            match r {
                Some(f) => self@.vfn(vtable as int, index as int) == Some(f as int),
                None => self@.vfn(vtable as int, index as int) is None,
            },
    {
        let at: u128 = vtable as u128 + 8 * (index as u128);
        // The length of the file is a machine word.
        let size: usize = self.data.len();
        if at > u64::MAX as u128 {
            proof {
                offset_is_small(self@, at as int);
            }
            return None;
        }
        match self.pointer_rva(at as u64) {
            None => None,
            Some(va) => match self.va_to_rva(va) {
                None => None,
                Some(rva) => {
                    if self.is_exec(rva) {
                        Some(rva)
                    } else {
                        None
                    }
                },
            },
        }
    }

    /// Walks virtual functions until an entry stops pointing at module code,
    /// at most `max` of them.
    pub fn virtuals(&self, vtable: u64, max: usize) -> (r: Vec<(usize, u64)>)
        ensures
            virtuals_of(self@, vtable as int, max as int, r@),
    {
        let mut out: Vec<(usize, u64)> = Vec::new();
        let mut i: usize = 0;
        while i < max
            invariant
                i <= max,
                out@.len() == i,
                forall|k: int|
                    0 <= k < i ==> (#[trigger] out@[k]).0 == k && self@.vfn(vtable as int, k)
                        == Some(out@[k].1 as int),
            decreases max - i,
        {
            match self.vfn(vtable, i) {
                Some(f) => {
                    out.push((i, f));
                },
                None => {
                    return out;
                },
            }
            i = i + 1;
        }
        out
    }
}

/// `r` lists the virtuals of a vtable: index and code RVA, from the first on,
/// up to `max` of them or to the first slot that holds no code.
pub open spec fn virtuals_of(m: PeImage, vtable: int, max: int, r: Seq<(usize, u64)>) -> bool {
    &&& r.len() <= max
    &&& forall|k: int|
        0 <= k < r.len() ==> (#[trigger] r[k]).0 == k && m.vfn(vtable, k) == Some(r[k].1 as int)
    &&& r.len() < max ==> m.vfn(vtable, r.len() as int) is None
}

/// Only 64-bit RVAs are backed by the file.
pub(crate) proof fn offset_is_small(m: PeImage, rva: int)
    requires
        rva > u64::MAX,
        m.data.len() <= u64::MAX,
    ensures
        m.rva_to_offset(rva) is None,
{
    section_offset_small(m.sections, rva, 0);
}

proof fn section_offset_small(sections: Seq<Section>, rva: int, i: int)
    requires
        rva > u64::MAX,
        0 <= i,
    ensures
        section_offset(sections, rva, i) is None,
    decreases sections.len() - i,
{
    if i < sections.len() {
        section_offset_small(sections, rva, i + 1);
    }
}

/// Lexicographic order of (RVA, subobject offset).
pub open spec fn before(a: Vtable, b: Vtable) -> bool {
    a.rva < b.rva || (a.rva == b.rva && a.object_offset < b.object_offset)
}

/// Strictly increasing order of vtables.
pub open spec fn ordered(s: Seq<Vtable>) -> bool {
    forall|i: int, j: int| 0 <= i < j < s.len() ==> before(s[i], s[j])
}

/// Adds a vtable to an ordered list, keeping the order and holding each once.
fn insert_vtable(v: &mut Vec<Vtable>, x: Vtable)
    requires
        ordered(old(v)@),
    ensures
        ordered(final(v)@),
        forall|y: Vtable| final(v)@.contains(y) <==> old(v)@.contains(y) || y == x,
{
    let mut i: usize = v.len();
    while i > 0 && (v[i - 1].rva > x.rva || (v[i - 1].rva == x.rva && v[i - 1].object_offset
        > x.object_offset))
        invariant
            i <= v@.len(),
            v@ == old(v)@,
            ordered(v@),
            forall|j: int| i <= j < v@.len() ==> before(x, v@[j]),
        decreases i,
    {
        i = i - 1;
    }
    if i > 0 && v[i - 1].rva == x.rva && v[i - 1].object_offset == x.object_offset {
        assert(old(v)@[i - 1] == x);
        return;
    }
    v.insert(i, x);
    proof {
        let o = old(v)@;
        let n = v@;
        assert(n == o.insert(i as int, x));
        assert(i > 0 ==> before(o[i - 1], x));
        assert forall|a: int, b: int| 0 <= a < b < n.len() implies before(n[a], n[b]) by {
            if b == i && a < i - 1 {
                assert(before(o[a], o[i - 1]));
            }
        }
        assert forall|y: Vtable| n.contains(y) <==> o.contains(y) || y == x by {
            if n.contains(y) {
                let k = choose|k: int| 0 <= k < n.len() && n[k] == y;
                if k < i {
                    assert(o[k] == y);
                } else if k > i {
                    assert(o[k - 1] == y);
                }
            }
            if o.contains(y) {
                let k = choose|k: int| 0 <= k < o.len() && o[k] == y;
                if k < i {
                    assert(n[k] == y);
                } else {
                    assert(n[k + 1] == y);
                }
            }
            if y == x {
                assert(n[i as int] == x);
            }
        }
    }
}

impl Module {
    /// RVAs of the class's TypeDescriptors.
    fn types(&self, name: &[u8]) -> (r: Vec<u64>)
        ensures
            forall|v: u64| r@.contains(v) <==> self@.is_type(name@, v as int),
    {
        let mut needle: Vec<u8> = vstd::slice::slice_to_vec(name);
        needle.push(0u8);
        let fixed: Vec<u64> = self.find_all(needle.as_slice(), Access::Rodata);
        let data: Vec<u64> = self.find_all(needle.as_slice(), Access::Data);
        let mut out: Vec<u64> = Vec::new();
        push_below(&mut out, &fixed);
        let ghost one = out@;
        push_below(&mut out, &data);
        assert forall|v: u64| out@.contains(v) <==> self@.is_type(name@, v as int) by {
            assert(below(fixed@, v) <==> self@.hit(needle@, Access::Rodata, v + 16)) by {
                if self@.hit(needle@, Access::Rodata, v + 16) && v + 16 <= u64::MAX {
                    assert(fixed@.contains((v + 16) as u64));
                    let k = choose|k: int| 0 <= k < fixed@.len() && fixed@[k] == (v + 16) as u64;
                    assert(fixed@[k] - 16 == v);
                }
                if below(fixed@, v) {
                    let k = choose|k: int| 0 <= k < fixed@.len() && #[trigger] fixed@[k] - 16 == v;
                    assert(fixed@.contains(fixed@[k]));
                }
                if self@.hit(needle@, Access::Rodata, v + 16) {
                    small_hit(self@, needle@, Access::Rodata, v + 16);
                }
            }
            assert(below(data@, v) <==> self@.hit(needle@, Access::Data, v + 16)) by {
                if self@.hit(needle@, Access::Data, v + 16) && v + 16 <= u64::MAX {
                    assert(data@.contains((v + 16) as u64));
                    let k = choose|k: int| 0 <= k < data@.len() && data@[k] == (v + 16) as u64;
                    assert(data@[k] - 16 == v);
                }
                if below(data@, v) {
                    let k = choose|k: int| 0 <= k < data@.len() && #[trigger] data@[k] - 16 == v;
                    assert(data@.contains(data@[k]));
                }
                if self@.hit(needle@, Access::Data, v + 16) {
                    small_hit(self@, needle@, Access::Data, v + 16);
                }
            }
        }
        out
    }

    /// RVA and subobject offset of the class's Complete Object Locators.
    fn locators(&self, name: &[u8]) -> (r: Vec<(u64, u32)>)
        ensures
            forall|v: u64, o: u32|
                #[trigger] r@.contains((v, o)) <==> self@.is_locator(name@, v as int, o as int),
    {
        let types: Vec<u64> = self.types(name);
        let ws: Vec<(u64, &[u8])> = self.scan(Access::Rodata, LOCATOR_TAIL);
        let ghost m = self@;
        let ghost all = window_views(ws@);
        let mut out: Vec<(u64, u32)> = Vec::new();
        let mut k: usize = 0;
        while k < ws.len()
            invariant
                k <= ws@.len(),
                m == self@,
                all == window_views(ws@),
                forall|v: u64| types@.contains(v) <==> m.is_type(name@, v as int),
                forall|v: u64, o: u32|
                    #[trigger] out@.contains((v, o)) <==> locator_before(
                        m,
                        name@,
                        all,
                        k as int,
                        v as int,
                        o as int,
                    ),
            decreases ws@.len() - k,
        {
            let base: u64 = ws[k].0;
            let b: &[u8] = ws[k].1;
            assert(all[k as int] == (base, b@));
            let mut i: usize = 0;
            while b.len() > LOCATOR_TAIL && i < b.len() - LOCATOR_TAIL
                invariant
                    k < ws@.len(),
                    m == self@,
                    all[k as int] == (base, b@),
                    forall|v: u64| types@.contains(v) <==> m.is_type(name@, v as int),
                    i % 4 == 0,
                    i <= b.len() + 3,
                    forall|v: u64, o: u32|
                        #[trigger] out@.contains((v, o)) <==> locator_before(
                            m,
                            name@,
                            all,
                            k as int,
                            v as int,
                            o as int,
                        ) || (v < base + i && m.locator_in(
                            name@,
                            base,
                            b@,
                            v as int,
                            o as int,
                        )),
                decreases b@.len() + 4 - i,
            {
                let ghost had = out@;
                let offset: u32 = rd_u32(b, i + 4);
                let td: u64 = rd_u32(b, i + 12) as u64;
                let own: u64 = rd_u32(b, i + 20) as u64;
                let take: bool = rd_u32(b, i) == 1 && holds(types.as_slice(), td) && own >= base
                    && own - base == i as u64;
                assert(take <==> m.locator_in(name@, base, b@, base + i, offset as int));
                if take {
                    out.push((own, offset));
                }
                proof {
                    assert forall|v: u64, o: u32| #[trigger]
                        out@.contains((v, o)) <==> locator_before(
                            m,
                            name@,
                            all,
                            k as int,
                            v as int,
                            o as int,
                        ) || (v < base + i + 4 && m.locator_in(
                            name@,
                            base,
                            b@,
                            v as int,
                            o as int,
                        )) by {
                        vstd::seq_lib::lemma_seq_contains_after_push(had, (own, offset), (v, o));
                        assert(had.contains((v, o)) <==> locator_before(
                            m,
                            name@,
                            all,
                            k as int,
                            v as int,
                            o as int,
                        ) || (v < base + i && m.locator_in(
                            name@,
                            base,
                            b@,
                            v as int,
                            o as int,
                        )));
                        if m.locator_in(name@, base, b@, v as int, o as int) && v < base + i + 4
                            && v >= base + i {
                            assert((v - base) % 4 == 0);
                            assert(v == base + i);
                            assert(le32(b@, i + 4) == o);
                        }
                    }
                }
                i = i + 4;
            }
            proof {
                assert forall|v: u64, o: u32| #[trigger]
                    out@.contains((v, o)) <==> locator_before(
                        m,
                        name@,
                        all,
                        k + 1,
                        v as int,
                        o as int,
                    ) by {
                    if m.locator_in(name@, base, b@, v as int, o as int) {
                        assert(v < base + i);
                        assert(m.locator_in(
                            name@,
                            all[k as int].0,
                            all[k as int].1,
                            v as int,
                            o as int,
                        ));
                    }
                }
            }
            k = k + 1;
        }
        assert forall|v: u64, o: u32| #[trigger] out@.contains((v, o)) <==> m.is_locator(
            name@,
            v as int,
            o as int,
        ) by {
            assert(locator_before(m, name@, all, k as int, v as int, o as int) <==> m.is_locator(
                name@,
                v as int,
                o as int,
            ));
        }
        out
    }

    /// Finds every x64 MSVC vtable whose TypeDescriptor has `decorated_name`.
    ///
    /// Names use MSVC RTTI spelling, for example `.?AVCInput@@`. Returned RVAs
    /// point at virtual slot zero, not at the preceding locator pointer.
    pub fn vtables(&self, decorated_name: &str) -> (r: Vec<Vtable>)
        ensures
            ordered(r@),
            forall|v: Vtable| #[trigger]
                r@.contains(v) <==> self@.is_vtable(
                    encode_utf8(decorated_name@),
                    v.rva as int,
                    v.object_offset as int,
                ),
    {
        let name: &[u8] = decorated_name.as_bytes();
        let ghost m = self@;
        let locators: Vec<(u64, u32)> = self.locators(name);
        let mut out: Vec<Vtable> = Vec::new();
        let mut k: usize = 0;
        while k < locators.len()
            invariant
                k <= locators@.len(),
                m == self@,
                ordered(out@),
                forall|v: Vtable| #[trigger]
                    out@.contains(v) <==> vtable_before(m, locators@, k as int, v),
            decreases locators@.len() - k,
        {
            let (locator, offset): (u64, u32) = locators[k];
            let mut needle: Vec<u8> = Vec::new();
            push_u64(&mut needle, self.image_base.saturating_add(locator));
            assert(needle@ =~= m.locator_pointer(locator as int));
            let slots: Vec<u64> = self.find_all(needle.as_slice(), Access::Rodata);
            let ghost base = out@;
            let mut i: usize = 0;
            while i < slots.len()
                invariant
                    i <= slots@.len(),
                    m == self@,
                    ordered(out@),
                    forall|v: Vtable| #[trigger]
                        out@.contains(v) <==> base.contains(v) || (v.object_offset == offset
                            && m.code_slot(v.rva as int) && slot_before(
                            slots@,
                            i as int,
                            v.rva - 8,
                        )),
                decreases slots@.len() - i,
            {
                let ghost had = out@;
                if slots[i] <= u64::MAX - 8 {
                    let rva: u64 = slots[i] + 8;
                    if self.code_slot(rva) {
                        insert_vtable(&mut out, Vtable { rva, object_offset: offset });
                    }
                }
                proof {
                    assert forall|v: Vtable| #[trigger]
                        out@.contains(v) <==> base.contains(v) || (v.object_offset == offset
                            && m.code_slot(v.rva as int) && slot_before(
                            slots@,
                            i + 1,
                            v.rva - 8,
                        )) by {
                        assert(had.contains(v) <==> base.contains(v) || (v.object_offset == offset
                            && m.code_slot(v.rva as int) && slot_before(
                            slots@,
                            i as int,
                            v.rva - 8,
                        )));
                        assert(slot_before(slots@, i + 1, v.rva - 8) <==> slot_before(
                            slots@,
                            i as int,
                            v.rva - 8,
                        ) || slots@[i as int] == v.rva - 8);
                    }
                }
                i = i + 1;
            }
            proof {
                assert forall|v: Vtable| #[trigger]
                    out@.contains(v) <==> vtable_before(m, locators@, k + 1, v) by {
                    assert(base.contains(v) <==> vtable_before(m, locators@, k as int, v));
                    let p = v.rva - 8;
                    assert(slot_before(slots@, i as int, p) <==> m.hit(
                        needle@,
                        Access::Rodata,
                        p,
                    )) by {
                        if slot_before(slots@, i as int, p) {
                            let j = choose|j: int| 0 <= j < i && #[trigger] slots@[j] == p;
                            assert(slots@.contains(slots@[j]));
                        }
                        if m.hit(needle@, Access::Rodata, p) {
                            small_hit(m, needle@, Access::Rodata, p);
                            assert(slots@.contains(p as u64));
                            let j = choose|j: int| 0 <= j < slots@.len() && slots@[j] == p as u64;
                            assert(slots@[j] == p);
                        }
                    }
                    assert(locators@[k as int] == (locator, offset));
                    next_locator(m, locators@, k as int, v);
                }
            }
            k = k + 1;
        }
        assert forall|v: Vtable| #[trigger] out@.contains(v) <==> m.is_vtable(
            name@,
            v.rva as int,
            v.object_offset as int,
        ) by {
            if vtable_before(m, locators@, k as int, v) {
                let j = choose|j: int|
                    0 <= j < k && locator_gives(m, #[trigger] locators@[j], v);
                assert(locators@.contains(locators@[j]));
                assert(m.is_locator(name@, locators@[j].0 as int, v.object_offset as int));
            }
            if m.is_vtable(name@, v.rva as int, v.object_offset as int) {
                let l = choose|l: int|
                    #[trigger] m.is_locator(name@, l, v.object_offset as int) && m.hit(
                        m.locator_pointer(l),
                        Access::Rodata,
                        v.rva - 8,
                    );
                locator_is_small(m, name@, l, v.object_offset as int);
                assert(locators@.contains((l as u64, v.object_offset)));
                let j = choose|j: int|
                    0 <= j < locators@.len() && locators@[j] == (l as u64, v.object_offset);
                assert(locator_gives(m, locators@[j], v));
            }
        }
        out
    }

    /// Whether code stands in the slot at an RVA.
    fn code_slot(&self, rva: u64) -> (r: bool)
        ensures
            r == self@.code_slot(rva as int),
    {
        match self.pointer_rva(rva) {
            None => false,
            Some(va) => match self.va_to_rva(va) {
                None => false,
                Some(f) => self.is_exec(f),
            },
        }
    }

    /// Primary MSVC vtable for a class: the lowest one.
    pub fn vtable(&self, decorated_name: &str) -> (r: Option<u64>)
        ensures
            match r {
                Some(v) => first_vtable(self@, encode_utf8(decorated_name@), v as int),
                None => forall|v: u64|
                    !self@.is_vtable(encode_utf8(decorated_name@), v as int, 0),
            },
    {
        let all: Vec<Vtable> = self.vtables(decorated_name);
        let ghost name = encode_utf8(decorated_name@);
        let mut i: usize = 0;
        while i < all.len()
            invariant
                i <= all@.len(),
                name == encode_utf8(decorated_name@),
                ordered(all@),
                forall|v: Vtable| #[trigger]
                    all@.contains(v) <==> self@.is_vtable(
                        name,
                        v.rva as int,
                        v.object_offset as int,
                    ),
                forall|k: int| 0 <= k < i ==> (#[trigger] all@[k]).object_offset != 0,
            decreases all@.len() - i,
        {
            if all[i].object_offset == 0 {
                let rva: u64 = all[i].rva;
                proof {
                    assert(all@.contains(all@[i as int]));
                    assert forall|u: u64| u < rva implies !self@.is_vtable(name, u as int, 0) by {
                        let v = Vtable { rva: u, object_offset: 0 };
                        if self@.is_vtable(name, u as int, 0) {
                            assert(all@.contains(v));
                            let k = choose|k: int| 0 <= k < all@.len() && all@[k] == v;
                            assert(all@[k].object_offset == 0);
                            assert(k >= i);
                            if k > i {
                                assert(before(all@[i as int], all@[k]));
                            }
                        }
                    }
                }
                return Some(rva);
            }
            i = i + 1;
        }
        assert forall|u: u64| !self@.is_vtable(name, u as int, 0) by {
            if self@.is_vtable(name, u as int, 0) {
                assert(all@.contains(Vtable { rva: u, object_offset: 0 }));
            }
        }
        None
    }
}

/// `rva` is the lowest primary vtable of the class.
pub open spec fn first_vtable(m: PeImage, name: Seq<u8>, rva: int) -> bool {
    m.is_vtable(name, rva, 0) && forall|u: u64| u < rva ==> !m.is_vtable(name, u as int, 0)
}

spec fn below(s: Seq<u64>, v: u64) -> bool {
    exists|k: int| 0 <= k < s.len() && #[trigger] s[k] - 16 == v
}

/// Appends each of `from` lowered by 16, where that is an address.
fn push_below(out: &mut Vec<u64>, from: &Vec<u64>)
    ensures
        forall|v: u64| final(out)@.contains(v) <==> old(out)@.contains(v) || below(from@, v),
{
    let mut i: usize = 0;
    while i < from.len()
        invariant
            i <= from@.len(),
            forall|v: u64|
                out@.contains(v) <==> old(out)@.contains(v) || below(from@.take(i as int), v),
        decreases from@.len() - i,
    {
        let ghost had = out@;
        if from[i] >= 16 {
            out.push(from[i] - 16);
        }
        proof {
            let t = from@.take(i as int);
            assert(from@.take(i + 1) =~= t.push(from@[i as int]));
            assert forall|v: u64|
                out@.contains(v) <==> old(out)@.contains(v) || below(from@.take(i + 1), v) by {
                if from@[i as int] >= 16 {
                    vstd::seq_lib::lemma_seq_contains_after_push(
                        had,
                        (from@[i as int] - 16) as u64,
                        v,
                    );
                }
                assert(had.contains(v) <==> old(out)@.contains(v) || below(t, v));
                if below(t, v) {
                    let k = choose|k: int| 0 <= k < t.len() && #[trigger] t[k] - 16 == v;
                    assert(from@.take(i + 1)[k] - 16 == v);
                }
                if below(from@.take(i + 1), v) {
                    let k = choose|k: int|
                        0 <= k < i + 1 && #[trigger] from@.take(i + 1)[k] - 16 == v;
                    if k < i {
                        assert(t[k] - 16 == v);
                    }
                }
                assert(from@.take(i + 1)[i as int] == from@[i as int]);
            }
        }
        i = i + 1;
    }
    assert(from@.take(from@.len() as int) =~= from@);
}

/// A locator of the class stands at `v` in one of the first `k` windows.
spec fn locator_before(
    m: PeImage,
    name: Seq<u8>,
    all: Seq<(u64, Seq<u8>)>,
    k: int,
    v: int,
    o: int,
) -> bool {
    exists|w: int| 0 <= w < k && #[trigger] m.locator_in(name, all[w].0, all[w].1, v, o)
}

spec fn slot_before(slots: Seq<u64>, i: int, p: int) -> bool {
    exists|j: int| 0 <= j < i && #[trigger] slots[j] == p
}

spec fn locator_gives(m: PeImage, l: (u64, u32), v: Vtable) -> bool {
    &&& v.object_offset == l.1
    &&& m.code_slot(v.rva as int)
    &&& m.hit(m.locator_pointer(l.0 as int), Access::Rodata, v.rva - 8)
}

spec fn vtable_before(m: PeImage, locators: Seq<(u64, u32)>, k: int, v: Vtable) -> bool {
    exists|j: int| 0 <= j < k && locator_gives(m, #[trigger] locators[j], v)
}

proof fn next_locator(m: PeImage, locators: Seq<(u64, u32)>, k: int, v: Vtable)
    requires
        0 <= k < locators.len(),
    ensures
        vtable_before(m, locators, k + 1, v) <==> vtable_before(m, locators, k, v)
            || locator_gives(m, locators[k], v),
{
}

/// The sections map fewer than 2^33 bytes, so a hit is a 64-bit RVA.
proof fn small_hit(m: PeImage, needle: Seq<u8>, want: Access, v: int)
    requires
        m.hit(needle, want, v),
    ensures
        0 <= v <= u64::MAX,
{
    let all = m.extents(want);
    scan_invents_nothing(m.data, all, needle, v);
    let i = choose|i: int|
        0 <= i < all.len() && (#[trigger] all[i]).va <= v && v + needle.len() <= all[i].va
            + all[i].len && occurs_at(m.data, needle, all[i].off + (v - all[i].va));
    extent_is_small(m.sections, want, m.sections.len() as int, i);
}

proof fn extent_is_small(sections: Seq<Section>, want: Access, n: int, i: int)
    requires
        n <= sections.len(),
        0 <= i < wanted(sections, want, n).len(),
    ensures
        wanted(sections, want, n)[i].va <= u32::MAX,
        wanted(sections, want, n)[i].len <= u32::MAX,
    decreases n,
{
    if n > 0 && i < wanted(sections, want, n - 1).len() {
        extent_is_small(sections, want, n - 1, i);
    }
}

proof fn locator_is_small(m: PeImage, name: Seq<u8>, v: int, o: int)
    requires
        m.is_locator(name, v, o),
    ensures
        0 <= v <= u64::MAX,
{
}

proof fn wanted_holds(sections: Seq<Section>, want: Access, n: int, i: int) -> (k: int)
    requires
        0 <= i < n <= sections.len(),
        want.wants(sections[i].characteristics),
    ensures
        0 <= k < wanted(sections, want, n).len(),
        wanted(sections, want, n)[k] == (Extent {
            off: sections[i].raw as u64,
            va: sections[i].rva as u64,
            len: sections[i].raw_size as u64,
        }),
    decreases n,
{
    if i == n - 1 {
        wanted(sections, want, n).len() - 1
    } else {
        wanted_holds(sections, want, n - 1, i)
    }
}

/// The scan misses nothing: wherever a needle stands in a wanted section that
/// the file holds in full, the scan reports its address.
pub proof fn pe_scan_misses_nothing(m: PeImage, i: int, needle: Seq<u8>, want: Access, k: int)
    requires
        0 <= i < m.sections.len(),
        want.wants(m.sections[i].characteristics),
        m.sections[i].raw + m.sections[i].raw_size <= m.data.len(),
        needle.len() > 0,
        occurs_at(
            m.data.subrange(
                m.sections[i].raw as int,
                m.sections[i].raw + m.sections[i].raw_size,
            ),
            needle,
            k,
        ),
    ensures
        m.hit(needle, want, m.sections[i].rva + k),
{
    let j = wanted_holds(m.sections, want, m.sections.len() as int, i);
    scan_misses_nothing(m.data, m.extents(want), j, needle, k);
}

/// Which sections a scan visits: code is what may be executed; read-only data
/// is what may be read, and neither executed nor written; data is what may be
/// written.
pub proof fn sections_are_told_apart(c: u32)
    ensures
        Access::Code.wants(c) <==> c & 0x2000_0000 != 0,
        Access::Rodata.wants(c) <==> c & 0x4000_0000 != 0 && c & 0x2000_0000 == 0 && c & 0x8000_0000
            == 0,
        Access::Data.wants(c) <==> c & 0x8000_0000 != 0,
{
}

/// Bytes of a section are read from where the file keeps them, behind the
/// headers.
pub proof fn section_bytes_are_read(m: PeImage, i: int, rva: int, len: int)
    requires
        0 <= i < m.sections.len(),
        exists|j: int|
            0 <= j < m.sections.len() && 0 < (#[trigger] m.sections[j]).raw <= rva,
        m.sections[i].rva <= rva < m.sections[i].rva + m.sections[i].raw_size,
        forall|j: int|
            0 <= j < i ==> !((#[trigger] m.sections[j]).rva <= rva < m.sections[j].rva
                + m.sections[j].raw_size),
        0 <= len,
        m.sections[i].raw + (rva - m.sections[i].rva) + len <= m.data.len(),
    ensures
        m.read_rva(rva, len) == Some(
            m.data.subrange(
                m.sections[i].raw + (rva - m.sections[i].rva),
                m.sections[i].raw + (rva - m.sections[i].rva) + len,
            ),
        ),
{
    let n = m.sections.len() as int;
    let j = choose|j: int| 0 <= j < n && 0 < (#[trigger] m.sections[j]).raw <= rva;
    low_is_low(m.sections, n, j, rva);
    offset_is(m.sections, rva, 0, i);
}

proof fn low_is_low(sections: Seq<Section>, n: int, j: int, rva: int)
    requires
        0 <= j < n <= sections.len(),
        0 < sections[j].raw <= rva,
    ensures
        first_raw(sections, n) matches Some(low) && low <= rva,
    decreases n,
{
    if j < n - 1 {
        low_is_low(sections, n - 1, j, rva);
    }
}

proof fn offset_is(sections: Seq<Section>, rva: int, from: int, i: int)
    requires
        0 <= from <= i < sections.len(),
        sections[i].rva <= rva < sections[i].rva + sections[i].raw_size,
        forall|j: int|
            0 <= j < i ==> !((#[trigger] sections[j]).rva <= rva < sections[j].rva
                + sections[j].raw_size),
    ensures
        section_offset(sections, rva, from) == Some(sections[i].raw + (rva - sections[i].rva)),
    decreases i - from,
{
    if from < i {
        assert(!(sections[from].rva <= rva < sections[from].rva + sections[from].raw_size));
        offset_is(sections, rva, from + 1, i);
    }
}

/// Addresses of the image are told from others, and give their place.
pub proof fn addresses_give_their_place(m: PeImage, rva: int)
    ensures
        0 <= rva < m.image_size ==> m.va_to_rva(m.image_base + rva) == Some(rva),
        rva < 0 || rva >= m.image_size ==> m.va_to_rva(m.image_base + rva) is None,
{
}

/// A named export is found: the first of that name, behind readable others.
pub proof fn the_named_export_is_found(m: PeImage, dir: Seq<u8>, wanted: Seq<u8>, i: int)
    requires
        m.export_rva != 0,
        m.export_size >= 40,
        m.read_rva(m.export_rva as int, 40) == Some(dir),
        0 <= i < le32(dir, 24),
        forall|j: int|
            0 <= j <= i ==> (#[trigger] m.read_rva(le32(dir, 32) + 4 * j, 4)) is Some && m.cstr_rva(
                le32(m.read_rva(le32(dir, 32) + 4 * j, 4)->0, 0),
                256,
            ) is Some,
        m.cstr_rva(le32(m.read_rva(le32(dir, 32) + 4 * i, 4)->0, 0), 256) == Some(wanted),
        forall|j: int|
            0 <= j < i ==> m.cstr_rva(
                le32((#[trigger] m.read_rva(le32(dir, 32) + 4 * j, 4))->0, 0),
                256,
            ) != Some(wanted),
    ensures
        m.export(wanted) == m.export_target(dir, i),
{
    export_is(m, dir, wanted, 0, i);
}

proof fn export_is(m: PeImage, dir: Seq<u8>, wanted: Seq<u8>, from: int, i: int)
    requires
        0 <= from <= i < le32(dir, 24),
        forall|j: int|
            0 <= j <= i ==> (#[trigger] m.read_rva(le32(dir, 32) + 4 * j, 4)) is Some && m.cstr_rva(
                le32(m.read_rva(le32(dir, 32) + 4 * j, 4)->0, 0),
                256,
            ) is Some,
        m.cstr_rva(le32(m.read_rva(le32(dir, 32) + 4 * i, 4)->0, 0), 256) == Some(wanted),
        forall|j: int|
            0 <= j < i ==> m.cstr_rva(
                le32((#[trigger] m.read_rva(le32(dir, 32) + 4 * j, 4))->0, 0),
                256,
            ) != Some(wanted),
    ensures
        m.export_from(dir, wanted, from) == m.export_target(dir, i),
    decreases i - from,
{
    assert(m.read_rva(le32(dir, 32) + 4 * from, 4) is Some);
    if from < i {
        export_is(m, dir, wanted, from + 1, i);
    }
}

/// A type is found by its name, 16 bytes into its descriptor, in read-only or
/// writable data.
pub proof fn a_type_is_found(m: PeImage, i: int, name: Seq<u8>, k: int)
    requires
        0 <= i < m.sections.len(),
        Access::Rodata.wants(m.sections[i].characteristics) || Access::Data.wants(
            m.sections[i].characteristics,
        ),
        m.sections[i].raw + m.sections[i].raw_size <= m.data.len(),
        0 <= m.sections[i].rva + k - 16,
        occurs_at(
            m.data.subrange(
                m.sections[i].raw as int,
                m.sections[i].raw + m.sections[i].raw_size,
            ),
            name.push(0u8),
            k,
        ),
    ensures
        m.is_type(name, m.sections[i].rva + k - 16),
{
    if Access::Rodata.wants(m.sections[i].characteristics) {
        pe_scan_misses_nothing(m, i, name.push(0u8), Access::Rodata, k);
    } else {
        pe_scan_misses_nothing(m, i, name.push(0u8), Access::Data, k);
    }
}

/// A vtable is found: where the word before its first slot refers to a locator
/// of the class, and the slot holds a pointer to code.
pub proof fn a_vtable_is_found(
    m: PeImage,
    i: int,
    name: Seq<u8>,
    k: int,
    locator: int,
    offset: int,
    va: int,
)
    requires
        0 <= i < m.sections.len(),
        Access::Rodata.wants(m.sections[i].characteristics),
        m.sections[i].raw + m.sections[i].raw_size <= m.data.len(),
        m.is_locator(name, locator, offset),
        0 <= locator,
        m.image_base + locator <= u64::MAX,
        occurs_at(
            m.data.subrange(
                m.sections[i].raw as int,
                m.sections[i].raw + m.sections[i].raw_size,
            ),
            le_bytes64(m.image_base + locator),
            k,
        ),
        m.pointer_rva(m.sections[i].rva + k + 8) == Some(va),
        m.image_base <= va < m.image_base + m.image_size,
        m.is_exec(va - m.image_base),
    ensures
        m.is_vtable(name, m.sections[i].rva + k + 8, offset),
        m.vfn(m.sections[i].rva + k + 8, 0) == Some(va - m.image_base),
{
    le_bytes64_read_back((m.image_base + locator) as u64);
    pe_scan_misses_nothing(m, i, m.locator_pointer(locator), Access::Rodata, k);
}

/// A locator of a class is found in read-only data, on a word of four bytes:
/// signature one, the offset of the subobject, the type, and its own place.
pub proof fn a_locator_is_found(m: PeImage, i: int, name: Seq<u8>, k: int, td: int, offset: int)
    requires
        0 <= i < m.sections.len(),
        Access::Rodata.wants(m.sections[i].characteristics),
        m.sections[i].raw + m.sections[i].raw_size <= m.data.len(),
        0 <= k,
        k + 24 <= m.sections[i].raw_size,
        k % 4 == 0,
        le32(m.data, m.sections[i].raw + k) == 1,
        le32(m.data, m.sections[i].raw + k + 4) == offset,
        le32(m.data, m.sections[i].raw + k + 12) == td,
        m.is_type(name, td),
        le32(m.data, m.sections[i].raw + k + 20) == m.sections[i].rva + k,
    ensures
        m.is_locator(name, m.sections[i].rva + k, offset),
{
    let all = m.extents(Access::Rodata);
    let ws = windows_from(m.data, all, 23, 0);
    let e = wanted_holds(m.sections, Access::Rodata, m.sections.len() as int, i);
    windows_hold_every_stretch(m.data, all, 23, e, k, 24);
    let (w, at) = choose|w: int, at: int|
        0 <= w < ws.len() && #[trigger] window_has(m.data, all[e], ws[w], at, k, 24);
    let b = ws[w].1;
    let o = m.sections[i].raw + k;
    let x = b.subrange(at, at + 24);
    let y = m.data.subrange(o, o + 24);
    assert(x == y);
    assert(x[0] == y[0] && x[1] == y[1] && x[2] == y[2] && x[3] == y[3] && x[4] == y[4] && x[5]
        == y[5] && x[6] == y[6] && x[7] == y[7] && x[12] == y[12] && x[13] == y[13] && x[14]
        == y[14] && x[15] == y[15] && x[20] == y[20] && x[21] == y[21] && x[22] == y[22] && x[23]
        == y[23]);
    assert((k - (ws[w].0 - all[e].va)) % 4 == 0);
    assert(m.locator_in(name, ws[w].0, b, m.sections[i].rva + k, offset));
}

/// A section is read from its entry of the section table: address and size in
/// memory, and size and place in the file.
pub proof fn sections_are_read(d: Seq<u8>, i: int)
    requires
        parse_pe(d) is Some,
        0 <= i < (parse_pe(d)->0).sections.len(),
    ensures
        ({
            let s = (parse_pe(d)->0).sections[i];
            let at = le32(d, 0x3c) + 24 + le16(d, le32(d, 0x3c) + 20) + 40 * i;
            &&& s.virtual_size == le32(d, at + 8)
            &&& s.rva == le32(d, at + 12)
            &&& s.raw_size == le32(d, at + 16)
            &&& s.raw == le32(d, at + 20)
            &&& s.characteristics == le32(d, at + 36)
        }),
        (parse_pe(d)->0).sections.len() == le16(d, le32(d, 0x3c) + 6),
        (parse_pe(d)->0).image_base == le64(d, le32(d, 0x3c) + 48),
        (parse_pe(d)->0).image_size == le32(d, le32(d, 0x3c) + 80),
        (parse_pe(d)->0).export_rva == le32(d, le32(d, 0x3c) + 136),
        (parse_pe(d)->0).export_size == le32(d, le32(d, 0x3c) + 140),
        (parse_pe(d)->0).data == d,
{
}

/// An export leads to its code: by its ordinal into the table of functions,
/// unless it leaves that table or the image, or names another module.
pub proof fn an_export_leads_to_its_code(m: PeImage, dir: Seq<u8>, i: int, o: Seq<u8>, f: Seq<u8>)
    requires
        m.read_rva(le32(dir, 36) + 2 * i, 2) == Some(o),
        le16(o, 0) < le32(dir, 20),
        m.read_rva(le32(dir, 28) + 4 * le16(o, 0), 4) == Some(f),
        le32(f, 0) < m.image_size,
        le32(f, 0) < m.export_rva || le32(f, 0) >= m.export_rva + m.export_size,
    ensures
        m.export_target(dir, i) == Some(le32(f, 0)),
{
}

/// The code of a module is what its executable sections hold in memory.
pub proof fn code_is_executable(m: PeImage, i: int, rva: int)
    requires
        0 <= i < m.sections.len(),
        m.sections[i].characteristics & 0x2000_0000 != 0,
        m.sections[i].rva <= rva < m.sections[i].rva + m.sections[i].virtual_size,
    ensures
        m.is_exec(rva),
{
    assert(m.sections[i].characteristics & IMAGE_SCN_MEM_EXECUTE != 0);
}

/// The slots of a vtable are eight bytes apart, and what stands in one is its
/// code.
pub proof fn virtuals_are_read(m: PeImage, vtable: int, index: int, va: int)
    requires
        m.pointer_rva(vtable + 8 * index) == Some(va),
    ensures
        m.image_base <= va < m.image_base + m.image_size && m.is_exec(va - m.image_base) ==> m.vfn(
            vtable,
            index,
        ) == Some(va - m.image_base),
        !(m.image_base <= va < m.image_base + m.image_size && m.is_exec(va - m.image_base))
            ==> m.vfn(vtable, index) is None,
{
}

/// A module is parsed where the file starts with the headers of an x86-64
/// image, holds its section table and every section of it.
pub proof fn a_module_is_parsed(d: Seq<u8>, pe: int)
    requires
        d.len() >= 0x40,
        d[0] == 'M' as u8,
        d[1] == 'Z' as u8,
        pe == le32(d, 0x3c),
        pe + 144 <= d.len(),
        d[pe] == 'P' as u8,
        d[pe + 1] == 'E' as u8,
        d[pe + 2] == 0,
        d[pe + 3] == 0,
        le16(d, pe + 4) == 0x8664,
        le16(d, pe + 24) == 0x20b,
        le16(d, pe + 20) >= 120,
        le16(d, pe + 6) > 0,
        pe + 24 + le16(d, pe + 20) + 40 * le16(d, pe + 6) <= d.len(),
        le32(d, pe + 80) != 0,
        forall|i: int|
            0 <= i < le16(d, pe + 6) ==> (#[trigger] section_at(d, i)).raw_size == 0 || section_at(
                d,
                i,
            ).raw + section_at(d, i).raw_size <= d.len(),
    ensures
        parse_pe(d) is Some,
{
}

/// The headers stand in memory as in the file.
pub proof fn headers_are_read(m: PeImage, rva: int, len: int)
    requires
        0 <= rva,
        0 <= len,
        rva < m.data.len(),
        rva + len <= m.data.len(),
        forall|j: int|
            0 <= j < m.sections.len() && (#[trigger] m.sections[j]).raw != 0 ==> rva
                < m.sections[j].raw,
        exists|j: int| 0 <= j < m.sections.len() && (#[trigger] m.sections[j]).raw != 0,
    ensures
        m.read_rva(rva, len) == Some(m.data.subrange(rva, rva + len)),
{
    let n = m.sections.len() as int;
    let j = choose|j: int| 0 <= j < n && (#[trigger] m.sections[j]).raw != 0;
    low_is_above(m.sections, n, j, rva);
}

proof fn low_is_above(sections: Seq<Section>, n: int, j: int, rva: int)
    requires
        0 <= n <= sections.len(),
        forall|k: int|
            0 <= k < sections.len() && (#[trigger] sections[k]).raw != 0 ==> rva < sections[k].raw,
    ensures
        0 <= j < n && sections[j].raw != 0 ==> first_raw(sections, n) is Some,
        first_raw(sections, n) matches Some(low) ==> rva < low,
    decreases n,
{
    if n > 0 {
        low_is_above(sections, n - 1, j, rva);
        assert(sections[n - 1].raw != 0 ==> rva < sections[n - 1].raw);
    }
}

/// A word is read from its eight bytes, and a text up to its NUL.
pub proof fn words_and_texts_are_read(m: PeImage, rva: int, max: int, b: Seq<u8>, s: Seq<u8>)
    ensures
        m.read_rva(rva, 8) == Some(b) ==> m.pointer_rva(rva) == Some(le64(b, 0)),
        m.read_rva(rva, 8) is None ==> m.pointer_rva(rva) is None,
        m.read_rva(rva, max) == Some(b) && c_prefix(b, 0) == Some(s) && valid_utf8(s) ==> m.cstr_rva(
            rva,
            max,
        ) == Some(s),
        m.read_rva(rva, max) == Some(b) && c_prefix(b, 0) is None ==> m.cstr_rva(rva, max) is None,
{
}

} // verus!
