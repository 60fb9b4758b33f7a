//! Linux case-folding fix for BSP pakfiles.
//!
//! The 64-bit Source builds lowercase every asset lookup into the BSP's
//! embedded zip pakfile, so anything packed with uppercase in its path never
//! resolves on Linux. Repacking the BSP would trip the server's
//! map-consistency check, so every affected entry is extracted as a LOWERCASE
//! loose file instead. BSPs are never modified; existing loose files are never
//! overwritten. Only STORED (method 0) entries are extracted.
//!
//! Here stand the decisions: which entries, under which names, with which
//! bytes, and how many of them. The caller checks what exists and writes.
use vstd::prelude::*;
use vstd::utf8::{encode_utf8, is_ascii_chars_encode_utf8};

use crate::bytes::{le16, le32, matches_bytes, occurs_at, rd_u16, rd_u32, same_bytes};
use crate::text::{chars, dec_text, has_suffix, push_dec, string_views};

verus! {

/// The lump that holds the pakfile.
pub const LUMP_PAKFILE: usize = 40;

pub const BSP_HEADER_LEN: usize = 1032;

/// Where the header holds offset and length of the pakfile lump.
pub const PAK_ENTRY: usize = 8 + 16 * LUMP_PAKFILE;

/// BSPs come from game servers. Real paks are tens of MB; anything absurd is
/// refused.
pub const MAX_PAK_LEN: u32 = 0x1000_0000;

pub const EOCD_SIG: u32 = 0x0605_4b50;

pub const CDIR_SIG: u32 = 0x0201_4b50;

pub const LOCAL_SIG: u32 = 0x0403_4b50;

/// How far from the end the zip directory record can start.
pub const EOCD_REACH: usize = 65_557;

/// Longest entry name that becomes a path.
pub const MAX_NAME: usize = 512;

/// Why a BSP's pakfile cannot be read.
#[derive(Clone, Copy, Debug, PartialEq, Eq, Structural)]
pub enum PakError {
    /// The file is shorter than a BSP header.
    Truncated,
    NotBsp,
    TooLarge,
    OutOfBounds,
    NoDirectory,
}

impl PakError {
    /// What to tell the user.
    pub open spec fn text(self) -> Seq<char> {
        match self {
            PakError::Truncated => "failed to fill whole buffer"@,
            PakError::NotBsp => "not a VBSP file"@,
            PakError::TooLarge => "pak lump implausibly large, refusing"@,
            PakError::OutOfBounds => "pak lump out of bounds"@,
            PakError::NoDirectory => "pak lump has no zip directory"@,
        }
    }

    /// What to tell the user.
    pub fn message(&self) -> (r: String)
        ensures
            r@ == self.text(),
    {
        match self {
            PakError::Truncated => "failed to fill whole buffer".to_owned(),
            PakError::NotBsp => "not a VBSP file".to_owned(),
            PakError::TooLarge => "pak lump implausibly large, refusing".to_owned(),
            PakError::OutOfBounds => "pak lump out of bounds".to_owned(),
            PakError::NoDirectory => "pak lump has no zip directory".to_owned(),
        }
    }
}

/// Why a pak entry is not extracted.
#[derive(Clone, Copy, Debug, PartialEq, Eq, Structural)]
pub enum EntryError {
    Compressed,
    SizeMismatch,
    BadLocalHeader,
    TruncatedLocalHeader,
    OutOfBounds,
}

impl EntryError {
    /// What to tell the user.
    pub open spec fn text(self) -> Seq<char> {
        match self {
            EntryError::Compressed => "compressed entry (not method 0), skipping"@,
            EntryError::SizeMismatch => "stored entry with mismatched sizes, skipping"@,
            EntryError::BadLocalHeader => "bad local header"@,
            EntryError::TruncatedLocalHeader => "truncated local header"@,
            EntryError::OutOfBounds => "entry data out of bounds"@,
        }
    }

    /// What to tell the user.
    pub fn message(&self) -> (r: String)
        ensures
            r@ == self.text(),
    {
        match self {
            EntryError::Compressed => "compressed entry (not method 0), skipping".to_owned(),
            EntryError::SizeMismatch => "stored entry with mismatched sizes, skipping".to_owned(),
            EntryError::BadLocalHeader => "bad local header".to_owned(),
            EntryError::TruncatedLocalHeader => "truncated local header".to_owned(),
            EntryError::OutOfBounds => "entry data out of bounds".to_owned(),
        }
    }
}

/// The file starts with the BSP magic.
pub open spec fn has_bsp_magic(file: Seq<u8>) -> bool {
    file.len() >= 4 && file[0] == 0x56 && file[1] == 0x42 && file[2] == 0x53 && file[3] == 0x50
}

/// Whether a file starts with the BSP magic.
pub fn bsp_magic(file: &[u8]) -> (r: bool)
    ensures
        r == has_bsp_magic(file@),
{
    file.len() >= 4 && file[0] == 0x56 && file[1] == 0x42 && file[2] == 0x53 && file[3] == 0x50
}

/// The pakfile lump of a BSP; an empty one is none at all.
pub open spec fn pak_of(file: Seq<u8>) -> Result<Seq<u8>, PakError> {
    let ofs = le32(file, PAK_ENTRY as int);
    let len = le32(file, PAK_ENTRY + 4);
    if file.len() < BSP_HEADER_LEN {
        Err(PakError::Truncated)
    } else if !has_bsp_magic(file) {
        Err(PakError::NotBsp)
    } else if len == 0 {
        Ok(Seq::empty())
    } else if len > MAX_PAK_LEN {
        Err(PakError::TooLarge)
    } else if ofs + len > file.len() {
        Err(PakError::OutOfBounds)
    } else {
        Ok(file.subrange(ofs, ofs + len))
    }
}

/// The pakfile lump of a BSP; an empty one is none at all.
pub fn pak_lump(file: &[u8]) -> (r: Result<&[u8], PakError>)
    ensures
        match r {
            Ok(b) => pak_of(file@) == Ok::<Seq<u8>, PakError>(b@),
            Err(e) => pak_of(file@) == Err::<Seq<u8>, PakError>(e),
        },
{
    if file.len() < BSP_HEADER_LEN {
        return Err(PakError::Truncated);
    }
    if !bsp_magic(file) {
        return Err(PakError::NotBsp);
    }
    let ofs: u32 = rd_u32(file, PAK_ENTRY);
    let len: u32 = rd_u32(file, PAK_ENTRY + 4);
    if len == 0 {
        let none: &[u8] = vstd::slice::slice_subrange(file, 0, 0);
        assert(none@ =~= Seq::empty());
        return Ok(none);
    }
    if len > MAX_PAK_LEN {
        return Err(PakError::TooLarge);
    }
    if ofs as u64 + len as u64 > file.len() as u64 {
        return Err(PakError::OutOfBounds);
    }
    Ok(vstd::slice::slice_subrange(file, ofs as usize, ofs as usize + len as usize))
}

/// A zip directory record stands at `i`, near enough to the end.
pub open spec fn eocd_at(blob: Seq<u8>, i: int) -> bool {
    &&& 0 <= i
    &&& i + 22 <= blob.len()
    &&& blob.len() - i <= EOCD_REACH
    &&& le32(blob, i) == EOCD_SIG
}

/// Locates the zip End Of Central Directory in the pak blob: the last one in
/// reach of the end. Returns (central directory offset, entry count).
pub fn find_eocd(blob: &[u8]) -> (r: Option<(usize, usize)>)
    ensures
        match r {
            Some((cd, count)) => exists|i: int|
                #[trigger] eocd_at(blob@, i) && (forall|j: int| j > i ==> !eocd_at(blob@, j)) && cd
                    == le32(blob@, i + 16) && count == le16(blob@, i + 10) && cd <= u32::MAX && count
                    <= u16::MAX,
            None => forall|i: int| !eocd_at(blob@, i),
        },
{
    if blob.len() < 22 {
        return None;
    }
    let lo: usize = if blob.len() < EOCD_REACH {
        0
    } else {
        blob.len() - EOCD_REACH
    };
    let mut i: usize = blob.len() - 22;
    loop
        invariant
            lo <= i <= blob.len() - 22,
            lo == (if blob.len() < EOCD_REACH {
                0
            } else {
                blob.len() - EOCD_REACH
            }),
            forall|j: int| j > i ==> !eocd_at(blob@, j),
        decreases i,
    {
        if rd_u32(blob, i) == EOCD_SIG {
            let count: usize = rd_u16(blob, i + 10) as usize;
            let cd: u32 = rd_u32(blob, i + 16);
            assert(eocd_at(blob@, i as int));
            return Some((cd as usize, count));
        }
        if i == lo {
            return None;
        }
        i = i - 1;
    }
}

/// A byte with backslashes turned into slashes.
pub open spec fn slashed(b: u8) -> u8 {
    if b == 0x5c {
        0x2f
    } else {
        b
    }
}

/// A byte with ASCII uppercase letters turned into lowercase ones.
pub open spec fn lowered(b: u8) -> u8 {
    if 0x41 <= b <= 0x5a {
        (b + 0x20) as u8
    } else {
        b
    }
}

/// All bytes lowered.
pub open spec fn lowercase(s: Seq<u8>) -> Seq<u8> {
    s.map_values(|b: u8| lowered(b))
}

/// `name[i..j]` is a path component: it lies between two slashes, or between
/// a slash and an end of the name.
pub open spec fn is_component(name: Seq<u8>, i: int, j: int) -> bool {
    &&& 0 <= i <= j <= name.len()
    &&& i == 0 || name[i - 1] == 0x2f
    &&& j == name.len() || name[j] == 0x2f
    &&& forall|k: int| i <= k < j ==> name[k] != 0x2f
}

/// `name[i..j]` is empty, `.` or `..`.
pub open spec fn is_dots(name: Seq<u8>, i: int, j: int) -> bool {
    ||| i == j
    ||| j - i == 1 && name[i] == 0x2e
    ||| j - i == 2 && name[i] == 0x2e && name[i + 1] == 0x2e
}

/// The name may become a path below a directory: it holds no NUL, and none of
/// its components is empty, `.` or `..`.
pub open spec fn path_safe(name: Seq<u8>) -> bool {
    &&& 0 < name.len() <= MAX_NAME
    &&& !name.contains(0u8)
    &&& forall|i: int, j: int| is_component(name, i, j) ==> !is_dots(name, i, j)
}

/// A pak entry's stored name, normalized: backslashes to slashes. Returns
/// `None` for names that must not become filesystem paths.
pub fn sane_name(raw: &[u8]) -> (r: Option<Vec<u8>>)
    ensures
        ({
            let name = raw@.map_values(|b: u8| slashed(b));
            match r {
                Some(n) => n@ == name && path_safe(name),
                None => !path_safe(name),
            }
        }),
{
    let ghost whole = raw@.map_values(|b: u8| slashed(b));
    if raw.len() == 0 || raw.len() > MAX_NAME {
        return None;
    }
    let mut name: Vec<u8> = Vec::new();
    let mut start: usize = 0;
    let mut i: usize = 0;
    while i < raw.len()
        invariant
            start <= i <= raw.len(),
            0 < raw.len() <= MAX_NAME,
            whole == raw@.map_values(|b: u8| slashed(b)),
            name@ == whole.take(i as int),
            start == 0 || whole[start - 1] == 0x2f,
            forall|k: int| start <= k < i ==> whole[k] != 0x2f,
            forall|k: int| 0 <= k < i ==> whole[k] != 0,
            forall|a: int, b: int|
                b < start && is_component(whole, a, b) ==> !is_dots(whole, a, b),
        decreases raw@.len() - i,
    {
        let b: u8 = if raw[i] == 0x5c {
            0x2f
        } else {
            raw[i]
        };
        assert(whole[i as int] == b);
        if b == 0 {
            assert(whole.contains(0u8));
            return None;
        }
        if b == 0x2f {
            let dots: bool = i == start || (i - start == 1 && name[start] == 0x2e) || (i - start
                == 2 && name[start] == 0x2e && name[start + 1] == 0x2e);
            assert(dots == is_dots(whole, start as int, i as int));
            if dots {
                assert(is_component(whole, start as int, i as int));
                return None;
            }
            proof {
                assert forall|a: int, c: int|
                    c < i + 1 && is_component(whole, a, c) implies !is_dots(whole, a, c) by {
                    if c >= start {
                        assert(c == i);
                        if a < start {
                            assert(whole[start - 1] == 0x2f);
                            assert(false);
                        }
                        if a > start {
                            assert(whole[a - 1] == 0x2f);
                            assert(false);
                        }
                    }
                }
            }
            start = i + 1;
        }
        name.push(b);
        assert(name@ =~= whole.take(i + 1));
        i = i + 1;
    }
    assert(whole.take(i as int) =~= whole);
    let dots: bool = i == start || (i - start == 1 && name[start] == 0x2e) || (i - start == 2
        && name[start] == 0x2e && name[start + 1] == 0x2e);
    assert(dots == is_dots(whole, start as int, i as int));
    assert(is_component(whole, start as int, i as int));
    if dots {
        return None;
    }
    proof {
        assert forall|a: int, c: int| is_component(whole, a, c) implies !is_dots(whole, a, c) by {
            if c >= start {
                if c < i {
                    assert(whole[c] == 0x2f);
                }
                assert(c == i);
                if a < start {
                    assert(whole[start - 1] == 0x2f);
                    assert(false);
                }
                if a > start {
                    assert(whole[a - 1] == 0x2f);
                    assert(false);
                }
            }
        }
        if whole.contains(0u8) {
            let k = choose|k: int| 0 <= k < whole.len() && whole[k] == 0u8;
            assert(false);
        }
    }
    Some(name)
}

/// A path-safe name has no slash at either end.
pub proof fn path_safe_is_relative(name: Seq<u8>)
    requires
        path_safe(name),
    ensures
        name[0] != 0x2f,
        name.last() != 0x2f,
{
    if name[0] == 0x2f {
        assert(is_component(name, 0, 0));
    }
    if name.last() == 0x2f {
        let n = name.len() as int;
        assert(is_component(name, n, n));
    }
}

/// The lowercase form of a path-safe name is path-safe.
pub proof fn lowercase_keeps_safety(name: Seq<u8>)
    requires
        path_safe(name),
    ensures
        path_safe(lowercase(name)),
{
    let low = lowercase(name);
    if low.contains(0u8) {
        let k = choose|k: int| 0 <= k < low.len() && low[k] == 0u8;
        assert(name[k] == 0u8);
        assert(name.contains(0u8));
    }
    assert forall|i: int, j: int| is_component(low, i, j) implies !is_dots(low, i, j) by {
        if i > 0 {
            assert(low[i - 1] == lowered(name[i - 1]));
        }
        if j < name.len() {
            assert(low[j] == lowered(name[j]));
        }
        assert forall|k: int| i <= k < j implies name[k] != 0x2f by {
            assert(low[k] == lowered(name[k]));
        }
        assert(is_component(name, i, j));
        if i < j {
            assert(low[i] == lowered(name[i]));
        }
        if i + 1 < j {
            assert(low[i + 1] == lowered(name[i + 1]));
        }
    }
}

/// The bytes with ASCII letters in lowercase.
fn to_lower(name: &[u8]) -> (r: Vec<u8>)
    ensures
        r@ == lowercase(name@),
{
    let mut out: Vec<u8> = Vec::new();
    let mut i: usize = 0;
    while i < name.len()
        invariant
            i <= name.len(),
            out@ == lowercase(name@).take(i as int),
        decreases name@.len() - i,
    {
        let b: u8 = name[i];
        out.push(
            if 0x41 <= b && b <= 0x5a {
                b + 0x20
            } else {
                b
            },
        );
        i = i + 1;
        assert(out@ =~= lowercase(name@).take(i as int));
    }
    assert(out@ =~= lowercase(name@));
    out
}

/// Asset roots the engine loads from paks and that the case bug affects.
pub open spec fn is_asset(name: Seq<u8>) -> bool {
    ||| occurs_at(name, encode_utf8("materials/"@), 0)
    ||| occurs_at(name, encode_utf8("models/"@), 0)
    ||| occurs_at(name, encode_utf8("sound/"@), 0)
    ||| occurs_at(name, encode_utf8("particles/"@), 0)
}

/// Whether a lowercase name lies under an affected asset root.
fn asset(name: &[u8]) -> (r: bool)
    ensures
        r == is_asset(name@),
{
    matches_bytes(name, "materials/".as_bytes(), 0) || matches_bytes(name, "models/".as_bytes(), 0)
        || matches_bytes(name, "sound/".as_bytes(), 0) || matches_bytes(
        name,
        "particles/".as_bytes(),
        0,
    )
}

/// One case-broken pak entry: the lowercase path it should have, and what the
/// central directory says of its data.
pub struct PakEntry {
    pub lower: Vec<u8>,
    pub local_ofs: u32,
    pub method: u16,
    pub comp_size: u32,
    pub uncomp_size: u32,
}

/// The value of a `PakEntry`.
pub struct EntryView {
    pub lower: Seq<u8>,
    pub local_ofs: u32,
    pub method: u16,
    pub comp_size: u32,
    pub uncomp_size: u32,
}

impl View for PakEntry {
    type V = EntryView;

    open spec fn view(&self) -> EntryView {
        EntryView {
            lower: self.lower@,
            local_ofs: self.local_ofs,
            method: self.method,
            comp_size: self.comp_size,
            uncomp_size: self.uncomp_size,
        }
    }
}

/// A whole central directory record stands at `p`.
pub open spec fn record_ok(blob: Seq<u8>, p: int) -> bool {
    &&& p + 46 <= blob.len()
    &&& le32(blob, p) == CDIR_SIG
    &&& p + 46 + le16(blob, p + 28) <= blob.len()
}

/// The normalized name of the record at `p`.
pub open spec fn record_name(blob: Seq<u8>, p: int) -> Seq<u8> {
    blob.subrange(p + 46, p + 46 + le16(blob, p + 28)).map_values(|b: u8| slashed(b))
}

/// The record at `p` is case-broken: its name may become a path, holds an
/// uppercase letter, and lies under an asset root.
pub open spec fn is_broken(blob: Seq<u8>, p: int) -> bool {
    let name = record_name(blob, p);
    path_safe(name) && name != lowercase(name) && is_asset(lowercase(name))
}

/// The case-broken entries among the `n` records from `p` on, up to the first
/// malformed record.
pub open spec fn broken_entries(blob: Seq<u8>, p: int, n: nat) -> Seq<EntryView>
    decreases n,
{
    if n == 0 || !record_ok(blob, p) {
        Seq::empty()
    } else {
        let next = p + 46 + le16(blob, p + 28) + le16(blob, p + 30) + le16(blob, p + 32);
        (if is_broken(blob, p) {
            seq![
                EntryView {
                    lower: lowercase(record_name(blob, p)),
                    local_ofs: le32(blob, p + 42) as u32,
                    method: le16(blob, p + 10) as u16,
                    comp_size: le32(blob, p + 20) as u32,
                    uncomp_size: le32(blob, p + 24) as u32,
                },
            ]
        } else {
            Seq::empty()
        }) + broken_entries(blob, next, (n - 1) as nat)
    }
}

/// The views of a list of entries.
pub open spec fn entry_views(v: Seq<PakEntry>) -> Seq<EntryView> {
    Seq::new(v.len(), |i: int| v[i]@)
}

/// Walks `count` central directory records from `cd` on and collects the
/// case-broken entries, up to the first malformed record.
pub fn walk_directory(blob: &[u8], cd: usize, count: usize) -> (r: Vec<PakEntry>)
    requires
        cd <= u32::MAX,
        count <= u16::MAX,
    ensures
        entry_views(r@) == broken_entries(blob@, cd as int, count as nat),
{
    let mut out: Vec<PakEntry> = Vec::new();
    let ghost goal = broken_entries(blob@, cd as int, count as nat);
    let mut p: u64 = cd as u64;
    let mut left: usize = count;
    assert(entry_views(out@) + goal =~= goal);
    while left > 0
        invariant
            left <= count <= u16::MAX,
            goal == broken_entries(blob@, cd as int, count as nat),
            p <= u32::MAX + (count - left) * 0x4_0000,
            entry_views(out@) + broken_entries(blob@, p as int, left as nat) == goal,
        decreases left,
    {
        let ghost before = entry_views(out@);
        if p + 46 > blob.len() as u64 {
            assert(before + Seq::empty() =~= before);
            return out;
        }
        let at: usize = p as usize;
        if rd_u32(blob, at) != CDIR_SIG {
            assert(before + Seq::empty() =~= before);
            return out;
        }
        let name_len: usize = rd_u16(blob, at + 28) as usize;
        let extra_len: u64 = rd_u16(blob, at + 30) as u64;
        let comment_len: u64 = rd_u16(blob, at + 32) as u64;
        if name_len > blob.len() - at - 46 {
            assert(before + Seq::empty() =~= before);
            return out;
        }
        assert(record_ok(blob@, p as int));
        let raw: &[u8] = vstd::slice::slice_subrange(blob, at + 46, at + 46 + name_len);
        let next: u64 = p + 46 + name_len as u64 + extra_len + comment_len;
        let ghost rest = broken_entries(blob@, next as int, (left - 1) as nat);
        let mut broken: bool = false;
        match sane_name(raw) {
            Some(name) => {
                let lower: Vec<u8> = to_lower(name.as_slice());
                if !same_bytes(name.as_slice(), lower.as_slice()) && asset(lower.as_slice()) {
                    broken = true;
                    let entry: PakEntry = PakEntry {
                        lower,
                        local_ofs: rd_u32(blob, at + 42),
                        method: rd_u16(blob, at + 10),
                        comp_size: rd_u32(blob, at + 20),
                        uncomp_size: rd_u32(blob, at + 24),
                    };
                    out.push(entry);
                    assert(entry_views(out@) =~= before.push(entry@));
                    assert(before + (seq![entry@] + rest) =~= before.push(entry@) + rest);
                }
            },
            None => {},
        }
        assert(broken == is_broken(blob@, p as int));
        if !broken {
            assert(Seq::<EntryView>::empty() + rest =~= rest);
        }
        p = next;
        left = left - 1;
    }
    assert(entry_views(out@) + Seq::empty() =~= entry_views(out@));
    out
}

/// The stored data of an entry, as the blob holds it.
pub open spec fn stored(blob: Seq<u8>, e: EntryView) -> Result<Seq<u8>, EntryError> {
    let at = e.local_ofs as int;
    if e.method != 0 {
        Err(EntryError::Compressed)
    } else if e.comp_size != e.uncomp_size {
        Err(EntryError::SizeMismatch)
    } else if at + 4 > blob.len() || le32(blob, at) != LOCAL_SIG {
        Err(EntryError::BadLocalHeader)
    } else if at + 30 > blob.len() {
        Err(EntryError::TruncatedLocalHeader)
    } else {
        let data = at + 30 + le16(blob, at + 26) + le16(blob, at + 28);
        if data + e.comp_size > blob.len() {
            Err(EntryError::OutOfBounds)
        } else {
            Ok(blob.subrange(data, data + e.comp_size))
        }
    }
}

/// What to write for one entry. Nothing if a file of that name `exists`
/// already; an entry that is not plainly stored is refused.
pub fn extract_stored<'a>(blob: &'a [u8], e: &PakEntry, exists: bool) -> (r: Result<
    Option<&'a [u8]>,
    EntryError,
>)
    ensures
        match r {
            Ok(None) => exists,
            Ok(Some(data)) => !exists && stored(blob@, e@) == Ok::<Seq<u8>, EntryError>(data@),
            Err(err) => !exists && stored(blob@, e@) == Err::<Seq<u8>, EntryError>(err),
        },
{
    if exists {
        return Ok(None);
    }
    if e.method != 0 {
        return Err(EntryError::Compressed);
    }
    if e.comp_size != e.uncomp_size {
        return Err(EntryError::SizeMismatch);
    }
    if e.local_ofs as u64 + 4 > blob.len() as u64 {
        return Err(EntryError::BadLocalHeader);
    }
    let at: usize = e.local_ofs as usize;
    if rd_u32(blob, at) != LOCAL_SIG {
        return Err(EntryError::BadLocalHeader);
    }
    if at as u64 + 30 > blob.len() as u64 {
        return Err(EntryError::TruncatedLocalHeader);
    }
    let names: u64 = rd_u16(blob, at + 26) as u64 + rd_u16(blob, at + 28) as u64;
    let data: u64 = at as u64 + 30 + names;
    if data + e.comp_size as u64 > blob.len() as u64 {
        return Err(EntryError::OutOfBounds);
    }
    let start: usize = data as usize;
    Ok(Some(vstd::slice::slice_subrange(blob, start, start + e.comp_size as usize)))
}

/// What became of one entry.
#[derive(Clone, Copy, Debug, PartialEq, Eq, Structural)]
pub enum Outcome {
    /// The loose file was written.
    Written,
    /// A file of that name was there already.
    Kept,
    /// The entry was refused or writing it failed.
    Failed,
}

/// The extraction of one BSP's case-broken entries: which one is next, and how
/// many bytes may still be written.
///
/// Stored data that does not overlap can never exceed the pak itself; a
/// crafted central directory with overlapping entries could otherwise amplify
/// a small pak into unbounded disk writes.
pub struct Extraction {
    blob: Vec<u8>,
    entries: Vec<PakEntry>,
    at: usize,
    budget: u64,
    extracted: usize,
}

/// The value of an `Extraction`.
pub struct ExtractionView {
    pub blob: Seq<u8>,
    pub entries: Seq<EntryView>,
    pub at: int,
    pub budget: int,
    pub extracted: int,
}

impl View for Extraction {
    type V = ExtractionView;

    closed spec fn view(&self) -> ExtractionView {
        ExtractionView {
            blob: self.blob@,
            entries: entry_views(self.entries@),
            at: self.at as int,
            budget: self.budget as int,
            extracted: self.extracted as int,
        }
    }
}

impl ExtractionView {
    /// The entry to extract next; none once all are settled or the next one
    /// exceeds the write budget.
    pub open spec fn next(self) -> Option<EntryView> {
        if 0 <= self.at < self.entries.len() && self.entries[self.at].comp_size <= self.budget {
            Some(self.entries[self.at])
        } else {
            None
        }
    }

    /// The extraction after the next entry came to this outcome.
    pub open spec fn settle(self, outcome: Outcome) -> ExtractionView {
        match self.next() {
            None => self,
            Some(e) => ExtractionView {
                at: self.at + 1,
                budget: if outcome == Outcome::Written {
                    self.budget - e.comp_size
                } else {
                    self.budget
                },
                extracted: if outcome == Outcome::Written {
                    self.extracted + 1
                } else {
                    self.extracted
                },
                ..self
            },
        }
    }

    /// The extraction after a run of outcomes.
    pub open spec fn run(self, outcomes: Seq<Outcome>) -> ExtractionView
        decreases outcomes.len(),
    {
        if outcomes.len() == 0 {
            self
        } else {
            self.run(outcomes.drop_last()).settle(outcomes.last())
        }
    }
}

/// What extracting a BSP's case-broken entries starts from.
pub open spec fn extraction_of(file: Seq<u8>, x: ExtractionView) -> bool {
    &&& pak_of(file) == Ok::<Seq<u8>, PakError>(x.blob)
    &&& x.at == 0
    &&& x.extracted == 0
    &&& x.budget == x.blob.len()
    &&& if x.blob.len() == 0 {
        x.entries.len() == 0
    } else {
        exists|i: int|
            #[trigger] eocd_at(x.blob, i) && (forall|j: int| j > i ==> !eocd_at(x.blob, j))
                && x.entries == broken_entries(
                x.blob,
                le32(x.blob, i + 16),
                le16(x.blob, i + 10) as nat,
            )
    }
}

/// Why no extraction of a BSP starts.
pub open spec fn extraction_error(file: Seq<u8>) -> Option<PakError> {
    match pak_of(file) {
        Err(e) => Some(e),
        Ok(blob) => if blob.len() > 0 && forall|i: int| !eocd_at(blob, i) {
            Some(PakError::NoDirectory)
        } else {
            None
        },
    }
}

/// Starts extracting the case-broken pak entries of one BSP.
pub fn fix_bsp(file: &[u8]) -> (r: Result<Extraction, PakError>)
    ensures
        match r {
            Ok(x) => extraction_error(file@) is None && extraction_of(file@, x@),
            Err(e) => extraction_error(file@) == Some(e),
        },
{
    let blob: &[u8] = match pak_lump(file) {
        Ok(b) => b,
        Err(e) => {
            return Err(e);
        },
    };
    let mut entries: Vec<PakEntry> = Vec::new();
    if blob.len() > 0 {
        match find_eocd(blob) {
            None => {
                return Err(PakError::NoDirectory);
            },
            Some((cd, count)) => {
                entries = walk_directory(blob, cd, count);
            },
        }
    }
    let budget: u64 = blob.len() as u64;
    Ok(
        Extraction {
            blob: vstd::slice::slice_to_vec(blob),
            entries,
            at: 0,
            budget,
            extracted: 0,
        },
    )
}

impl Extraction {
    /// No more entries are counted than were settled.
    #[verifier::type_invariant]
    spec fn counted(self) -> bool {
        self.extracted <= self.at <= self.entries@.len()
    }

    /// The entry to extract next.
    pub fn next(&self) -> (r: Option<&PakEntry>)
        ensures
            match r {
                Some(e) => self@.next() == Some(e@),
                None => self@.next() is None,
            },
    {
        if self.at < self.entries.len() && self.entries[self.at].comp_size as u64 <= self.budget {
            Some(&self.entries[self.at])
        } else {
            None
        }
    }

    /// The pak that the entries point into.
    pub fn blob(&self) -> (r: &[u8])
        ensures
            r@ == self@.blob,
    {
        self.blob.as_slice()
    }

    /// Records what became of the next entry.
    pub fn settle(&mut self, outcome: Outcome)
        ensures
            final(self)@ == old(self)@.settle(outcome),
    {
        proof {
            use_type_invariant(&*self);
        }
        if self.at < self.entries.len() && self.entries[self.at].comp_size as u64 <= self.budget {
            let size: u64 = self.entries[self.at].comp_size as u64;
            let done: bool = outcome == Outcome::Written;
            self.at = self.at + 1;
            if done {
                self.budget = self.budget - size;
                self.extracted = self.extracted + 1;
            }
        }
    }

    /// Whether an entry is left that exceeds the write budget.
    pub fn overdrawn(&self) -> (r: bool)
        ensures
            r == (self@.at < self@.entries.len() && self@.next() is None),
    {
        self.at < self.entries.len() && self.entries[self.at].comp_size as u64 > self.budget
    }

    /// How many loose files were written.
    pub fn extracted(&self) -> (r: usize)
        ensures
            r == self@.extracted,
    {
        self.extracted
    }
}

/// How many bytes a run of outcomes wrote.
pub open spec fn bytes_written(x: ExtractionView, outcomes: Seq<Outcome>) -> int
    decreases outcomes.len(),
{
    if outcomes.len() == 0 {
        0
    } else {
        let before = x.run(outcomes.drop_last());
        bytes_written(x, outcomes.drop_last()) + (match before.next() {
            Some(e) if outcomes.last() == Outcome::Written => e.comp_size as int,
            _ => 0,
        })
    }
}

/// Whatever the central directory claims, and however writing goes, extracting
/// a BSP never writes more bytes than its pak holds.
pub proof fn writes_stay_within_the_pak(
    file: Seq<u8>,
    x: ExtractionView,
    outcomes: Seq<Outcome>,
)
    requires
        extraction_of(file, x),
    ensures
        bytes_written(x, outcomes) <= x.blob.len(),
        bytes_written(x, outcomes) == x.blob.len() - x.run(outcomes).budget,
    decreases outcomes.len(),
{
    if outcomes.len() > 0 {
        writes_stay_within_the_pak(file, x, outcomes.drop_last());
    }
    run_keeps_budget(x, outcomes);
}

proof fn run_keeps_budget(x: ExtractionView, outcomes: Seq<Outcome>)
    requires
        x.budget >= 0,
    ensures
        x.run(outcomes).budget >= 0,
        x.run(outcomes).entries == x.entries,
        x.run(outcomes).blob == x.blob,
    decreases outcomes.len(),
{
    if outcomes.len() > 0 {
        run_keeps_budget(x, outcomes.drop_last());
    }
}

/// The name is the lowercase form of a packed name that is not lowercase: that
/// of a case-broken record.
pub open spec fn comes_from_broken(blob: Seq<u8>, lower: Seq<u8>) -> bool {
    exists|q: int| #[trigger] is_broken(blob, q) && lower == lowercase(record_name(blob, q))
}

/// Every entry that is ever offered for extraction has a lowercase, path-safe
/// name under an asset root, and its packed name was not lowercase.
pub proof fn offered_names_are_safe(file: Seq<u8>, x: ExtractionView, outcomes: Seq<Outcome>)
    requires
        extraction_of(file, x),
        x.run(outcomes).next() is Some,
    ensures
        path_safe(x.run(outcomes).next()->0.lower),
        is_asset(x.run(outcomes).next()->0.lower),
        lowercase(x.run(outcomes).next()->0.lower) == x.run(outcomes).next()->0.lower,
        comes_from_broken(x.blob, x.run(outcomes).next()->0.lower),
{
    run_keeps_budget(x, outcomes);
    let i = choose|i: int|
        #[trigger] eocd_at(x.blob, i) && (forall|j: int| j > i ==> !eocd_at(x.blob, j))
            && x.entries == broken_entries(
            x.blob,
            le32(x.blob, i + 16),
            le16(x.blob, i + 10) as nat,
        );
    let k = x.run(outcomes).at;
    broken_is_safe(x.blob, le32(x.blob, i + 16), le16(x.blob, i + 10) as nat, k);
}

proof fn broken_is_safe(blob: Seq<u8>, p: int, n: nat, k: int)
    requires
        0 <= k < broken_entries(blob, p, n).len(),
    ensures
        path_safe(broken_entries(blob, p, n)[k].lower),
        is_asset(broken_entries(blob, p, n)[k].lower),
        lowercase(broken_entries(blob, p, n)[k].lower) == broken_entries(blob, p, n)[k].lower,
        comes_from_broken(blob, broken_entries(blob, p, n)[k].lower),
    decreases n,
{
    let next = p + 46 + le16(blob, p + 28) + le16(blob, p + 30) + le16(blob, p + 32);
    let rest = broken_entries(blob, next, (n - 1) as nat);
    if is_broken(blob, p) {
        let name = record_name(blob, p);
        lowercase_keeps_safety(name);
        assert(lowercase(lowercase(name)) =~= lowercase(name));
        if k > 0 {
            broken_is_safe(blob, next, (n - 1) as nat, k - 1);
            assert(broken_entries(blob, p, n)[k] == rest[k - 1]);
        }
    } else {
        broken_is_safe(blob, next, (n - 1) as nat, k);
        assert(broken_entries(blob, p, n)[k] == rest[k]);
    }
}

/// What came of one map: its file name, and how many files were unpacked.
pub struct MapReport {
    pub name: String,
    pub outcome: Result<usize, String>,
}

/// A file name with the extension of maps: there is a last dot, not at the
/// start, and `bsp` behind it.
pub open spec fn is_map_file(name: Seq<char>) -> bool {
    &&& name.len() > 4
    &&& name.skip(name.len() - 4) == ".bsp"@
}

/// Whether a file name has the extension of maps.
pub fn map_file(name: &str) -> (r: bool)
    ensures
        r == is_map_file(name@),
{
    let size: usize = chars(name).len();
    proof {
        reveal_strlit(".bsp");
    }
    size > 4 && has_suffix(name, ".bsp")
}

/// How many files were unpacked from the first `n` maps.
pub open spec fn swept(reports: Seq<MapReport>, n: int) -> int
    decreases n,
{
    if n <= 0 {
        0
    } else {
        swept(reports, n - 1) + (match reports[n - 1].outcome {
            Ok(k) => k as int,
            Err(_) => 0,
        })
    }
}

/// What is told of one map: nothing where it was clean.
pub open spec fn sweep_line(report: MapReport) -> Option<Seq<char>> {
    match report.outcome {
        Ok(n) => if n == 0 {
            None
        } else {
            Some(
                "[pakfix] "@ + report.name@ + ": extracted "@ + dec_text(n as int)
                    + " case-broken file(s)"@,
            )
        },
        Err(e) => Some("[pakfix] "@ + report.name@ + ": skipped: "@ + e@),
    }
}

/// What is told of the first `n` maps.
pub open spec fn sweep_lines(reports: Seq<MapReport>, n: int) -> Seq<Seq<char>>
    decreases n,
{
    if n <= 0 {
        Seq::empty()
    } else {
        match sweep_line(reports[n - 1]) {
            Some(line) => sweep_lines(reports, n - 1).push(line),
            None => sweep_lines(reports, n - 1),
        }
    }
}

proof fn swept_grows(reports: Seq<MapReport>, a: int, b: int)
    requires
        a <= b,
    ensures
        swept(reports, a) <= swept(reports, b),
    decreases b - a,
{
    if a < b {
        swept_grows(reports, a, b - 1);
    }
}

/// What a sweep over the maps came to: how many files were unpacked, and what
/// is told. A map that cannot be read does not stop the others.
pub fn sweep(reports: &[MapReport]) -> (r: (usize, Vec<String>))
    requires
        swept(reports@, reports@.len() as int) <= usize::MAX,
    ensures
        r.0 == swept(reports@, reports@.len() as int),
        string_views(r.1@) == sweep_lines(reports@, reports@.len() as int),
{
    let mut total: usize = 0;
    let mut lines: Vec<String> = Vec::new();
    let mut i: usize = 0;
    assert(string_views(lines@) =~= Seq::empty());
    while i < reports.len()
        invariant
            i <= reports.len(),
            swept(reports@, reports@.len() as int) <= usize::MAX,
            total == swept(reports@, i as int),
            string_views(lines@) == sweep_lines(reports@, i as int),
        decreases reports.len() - i,
    {
        let ghost before = string_views(lines@);
        let report: &MapReport = &reports[i];
        proof {
            swept_grows(reports@, i + 1, reports@.len() as int);
        }
        let mut line: String = "[pakfix] ".to_owned();
        line.append(report.name.as_str());
        match &report.outcome {
            Ok(n) => {
                if *n > 0 {
                    line.append(": extracted ");
                    push_dec(&mut line, *n as u64);
                    line.append(" case-broken file(s)");
                    let ghost text = line@;
                    lines.push(line);
                    assert(string_views(lines@) =~= before.push(text));
                }
                total = total + *n;
            },
            Err(e) => {
                line.append(": skipped: ");
                line.append(e.as_str());
                let ghost text = line@;
                lines.push(line);
                assert(string_views(lines@) =~= before.push(text));
            },
        }
        i = i + 1;
    }
    (total, lines)
}

/// Where the pak of a BSP is: behind `VBSP`, at byte 648 the header holds its
/// offset and then its length, and those bytes of the file are the pak.
pub proof fn pak_is_where_the_header_says(file: Seq<u8>, ofs: int, len: int)
    requires
        file.len() >= 1032,
        file[0] == 'V' as u8,
        file[1] == 'B' as u8,
        file[2] == 'S' as u8,
        file[3] == 'P' as u8,
        ofs == le32(file, 648),
        len == le32(file, 652),
        ofs + len <= file.len(),
    ensures
        len <= 0x1000_0000 ==> (pak_of(file) matches Ok(b) && b =~= file.subrange(ofs, ofs + len)),
        len > 0x1000_0000 ==> pak_of(file) == Err::<Seq<u8>, PakError>(PakError::TooLarge),
{
}

/// The directory record of an archive is found behind any comment that an
/// archive can have; without one it stands 22 bytes before the end.
pub proof fn archives_end_with_their_directory(blob: Seq<u8>, comment: int)
    requires
        0 <= comment <= 65_535,
        comment + 22 <= blob.len(),
        blob[blob.len() - 22 - comment] == 0x50,
        blob[blob.len() - 21 - comment] == 0x4b,
        blob[blob.len() - 20 - comment] == 5,
        blob[blob.len() - 19 - comment] == 6,
    ensures
        eocd_at(blob, blob.len() - 22 - comment),
{
}

/// Where the record behind `k` others stands in a directory that starts at `p`:
/// each takes 46 bytes, its name, its extra field and its comment.
pub open spec fn record_pos(blob: Seq<u8>, p: int, k: int) -> int
    decreases k,
{
    if k <= 0 {
        p
    } else {
        let q = record_pos(blob, p, k - 1);
        q + 46 + le16(blob, q + 28) + le16(blob, q + 30) + le16(blob, q + 32)
    }
}

/// The entry is what this record says.
pub open spec fn entry_of_record(blob: Seq<u8>, q: int, e: EntryView) -> bool {
    &&& e.lower == lowercase(record_name(blob, q))
    &&& e.method == le16(blob, q + 10)
    &&& e.comp_size == le32(blob, q + 20)
    &&& e.uncomp_size == le32(blob, q + 24)
    &&& e.local_ofs == le32(blob, q + 42)
}

/// No case-broken entry of the directory is left out: the one of every record
/// that is reached through whole records is listed, with what the record says.
pub proof fn every_broken_entry_is_listed(blob: Seq<u8>, p: int, n: nat, k: int)
    requires
        0 <= k < n,
        0 <= p,
        forall|j: int| 0 <= j <= k ==> record_ok(blob, #[trigger] record_pos(blob, p, j)),
        is_broken(blob, record_pos(blob, p, k)),
    ensures
        exists|i: int|
            0 <= i < broken_entries(blob, p, n).len() && entry_of_record(
                blob,
                record_pos(blob, p, k),
                #[trigger] broken_entries(blob, p, n)[i],
            ),
    decreases n,
{
    let next = record_pos(blob, p, 1);
    let all = broken_entries(blob, p, n);
    assert(record_pos(blob, p, 0) == p);
    assert(record_ok(blob, record_pos(blob, p, 0)));
    let rest = broken_entries(blob, next, (n - 1) as nat);
    reveal_with_fuel(record_pos, 2);
    if k == 0 {
        assert(entry_of_record(blob, p, all[0]));
    } else {
        assert forall|j: int| 0 <= j <= k - 1 implies record_ok(
            blob,
            #[trigger] record_pos(blob, next, j),
        ) by {
            record_pos_shift(blob, p, j);
            assert(record_ok(blob, record_pos(blob, p, j + 1)));
        }
        record_pos_shift(blob, p, k - 1);
        every_broken_entry_is_listed(blob, next, (n - 1) as nat, k - 1);
        let i = choose|i: int|
            0 <= i < rest.len() && entry_of_record(
                blob,
                record_pos(blob, next, k - 1),
                #[trigger] rest[i],
            );
        if is_broken(blob, p) {
            assert(all[i + 1] == rest[i]);
        } else {
            assert(all[i] == rest[i]);
        }
    }
}

proof fn record_pos_shift(blob: Seq<u8>, p: int, k: int)
    requires
        0 <= k,
    ensures
        record_pos(blob, record_pos(blob, p, 1), k) == record_pos(blob, p, k + 1),
    decreases k,
{
    reveal_with_fuel(record_pos, 2);
    if k > 0 {
        record_pos_shift(blob, p, k - 1);
    }
}

/// The bytes of one of the four asset roots, with the slash behind it.
pub open spec fn under_asset_root(name: Seq<u8>) -> bool {
    ||| name.len() >= 10 && name[0] == 'm' as u8 && name[1] == 'a' as u8 && name[2] == 't' as u8
        && name[3] == 'e' as u8 && name[4] == 'r' as u8 && name[5] == 'i' as u8 && name[6]
        == 'a' as u8 && name[7] == 'l' as u8 && name[8] == 's' as u8 && name[9] == '/' as u8
    ||| name.len() >= 7 && name[0] == 'm' as u8 && name[1] == 'o' as u8 && name[2] == 'd' as u8
        && name[3] == 'e' as u8 && name[4] == 'l' as u8 && name[5] == 's' as u8 && name[6]
        == '/' as u8
    ||| name.len() >= 6 && name[0] == 's' as u8 && name[1] == 'o' as u8 && name[2] == 'u' as u8
        && name[3] == 'n' as u8 && name[4] == 'd' as u8 && name[5] == '/' as u8
    ||| name.len() >= 10 && name[0] == 'p' as u8 && name[1] == 'a' as u8 && name[2] == 'r' as u8
        && name[3] == 't' as u8 && name[4] == 'i' as u8 && name[5] == 'c' as u8 && name[6]
        == 'l' as u8 && name[7] == 'e' as u8 && name[8] == 's' as u8 && name[9] == '/' as u8
}

/// The asset roots are materials, models, sound and particles.
pub proof fn assets_are_under_four_roots(name: Seq<u8>)
    ensures
        is_asset(name) <==> under_asset_root(name),
{
    reveal_strlit("materials/");
    reveal_strlit("models/");
    reveal_strlit("sound/");
    reveal_strlit("particles/");
    is_ascii_chars_encode_utf8("materials/"@);
    is_ascii_chars_encode_utf8("models/"@);
    is_ascii_chars_encode_utf8("sound/"@);
    is_ascii_chars_encode_utf8("particles/"@);
    root_is(name, encode_utf8("materials/"@));
    root_is(name, encode_utf8("models/"@));
    root_is(name, encode_utf8("sound/"@));
    root_is(name, encode_utf8("particles/"@));
}

proof fn root_is(name: Seq<u8>, root: Seq<u8>)
    requires
        6 <= root.len() <= 10,
    ensures
        occurs_at(name, root, 0) <==> name.len() >= root.len() && name[0] == root[0] && name[1]
            == root[1] && name[2] == root[2] && name[3] == root[3] && name[4] == root[4] && name[5]
            == root[5] && (root.len() > 6 ==> name[6] == root[6]) && (root.len() > 7 ==> name[7]
            == root[7]) && (root.len() > 8 ==> name[8] == root[8]) && (root.len() > 9 ==> name[9]
            == root[9]),
{
    let n = root.len() as int;
    if name.len() >= n {
        let head = name.subrange(0, n);
        if occurs_at(name, root, 0) {
            assert(head =~= root);
            assert(head[0] == name[0] && head[1] == name[1] && head[2] == name[2] && head[3]
                == name[3] && head[4] == name[4] && head[5] == name[5]);
            assert(n > 6 ==> head[6] == name[6]);
            assert(n > 7 ==> head[7] == name[7]);
            assert(n > 8 ==> head[8] == name[8]);
            assert(n > 9 ==> head[9] == name[9]);
        } else if name[0] == root[0] && name[1] == root[1] && name[2] == root[2] && name[3]
            == root[3] && name[4] == root[4] && name[5] == root[5] && (n > 6 ==> name[6]
            == root[6]) && (n > 7 ==> name[7] == root[7]) && (n > 8 ==> name[8] == root[8]) && (n
            > 9 ==> name[9] == root[9]) {
            assert forall|j: int| 0 <= j < n implies head[j] == root[j] by {
                assert(j == 0 || j == 1 || j == 2 || j == 3 || j == 4 || j == 5 || j == 6 || j == 7
                    || j == 8 || j == 9);
            }
            assert(head =~= root);
        }
    }
}

/// Which entries are case-broken: those of a name that may become a path, lies
/// under an asset root whatever the case, and holds a capital.
pub proof fn capitals_break_an_asset(blob: Seq<u8>, p: int, k: int)
    requires
        0 <= k < record_name(blob, p).len(),
    ensures
        0x41 <= record_name(blob, p)[k] <= 0x5a && path_safe(record_name(blob, p))
            && under_asset_root(lowercase(record_name(blob, p))) ==> is_broken(blob, p),
        (forall|j: int|
            0 <= j < record_name(blob, p).len() ==> !(0x41 <= #[trigger] record_name(blob, p)[j]
                <= 0x5a)) ==> !is_broken(blob, p),
        !under_asset_root(lowercase(record_name(blob, p))) ==> !is_broken(blob, p),
{
    let name = record_name(blob, p);
    let low = lowercase(name);
    assets_are_under_four_roots(low);
    if 0x41 <= name[k] <= 0x5a {
        assert(low[k] == lowered(name[k]));
        assert(low[k] != name[k]);
    }
    if forall|j: int| 0 <= j < name.len() ==> !(0x41 <= #[trigger] name[j] <= 0x5a) {
        assert(low =~= name);
    }
}

/// A name is changed to small letters and slashes, byte for byte, and in no
/// other way.
pub proof fn names_keep_their_letters(blob: Seq<u8>, p: int, k: int)
    requires
        record_ok(blob, p),
        0 <= p,
        0 <= k < le16(blob, p + 28),
    ensures
        record_name(blob, p).len() == le16(blob, p + 28),
        lowercase(record_name(blob, p)).len() == le16(blob, p + 28),
        ({
            let b = blob[p + 46 + k];
            lowercase(record_name(blob, p))[k] == if b == 0x5c {
                0x2f
            } else if 0x41 <= b <= 0x5a {
                (b + 32) as u8
            } else {
                b
            }
        }),
{
}

/// A plain file name may become a path: one without slash and NUL that is not
/// empty, too long, `.` or `..`.
pub proof fn plain_names_are_safe(name: Seq<u8>)
    requires
        0 < name.len() <= 512,
        !name.contains(0x2fu8),
        !name.contains(0u8),
    ensures
        path_safe(name) <==> !(name == seq![0x2eu8] || name == seq![0x2eu8, 0x2eu8]),
{
    let n = name.len() as int;
    assert forall|k: int| 0 <= k < n implies name[k] != 0x2f by {
        assert(name.contains(name[k]));
    }
    assert(is_component(name, 0, n));
    assert forall|i: int, j: int| is_component(name, i, j) implies i == 0 && j == n by {
        if i > 0 {
            assert(name[i - 1] == 0x2f);
        }
        if j < n {
            assert(name[j] == 0x2f);
        }
    }
    if name == seq![0x2eu8] {
        assert(name.len() == 1 && name[0] == 0x2e);
    }
    if name == seq![0x2eu8, 0x2eu8] {
        assert(name.len() == 2 && name[0] == 0x2e && name[1] == 0x2e);
    }
    if is_dots(name, 0, n) {
        if n == 1 {
            assert(name =~= seq![0x2eu8]);
        } else {
            assert(name =~= seq![0x2eu8, 0x2eu8]);
        }
    }
}

/// A path of two parts may be used exactly where both parts may.
pub proof fn paths_are_as_safe_as_their_parts(a: Seq<u8>, b: Seq<u8>)
    requires
        a.len() + 1 + b.len() <= 512,
    ensures
        path_safe(a + seq![0x2fu8] + b) <==> path_safe(a) && path_safe(b),
{
    let s = a + seq![0x2fu8] + b;
    let n = a.len() as int;
    assert(s[n] == 0x2f);
    assert(forall|k: int| 0 <= k < n ==> s[k] == #[trigger] a[k]);
    assert forall|k: int| 0 <= k < b.len() implies #[trigger] b[k] == s[n + 1 + k] by {}
    if path_safe(s) {
        if a.contains(0u8) {
            let k = choose|k: int| 0 <= k < n && a[k] == 0u8;
            assert(s[k] == 0u8);
        }
        if b.contains(0u8) {
            let k = choose|k: int| 0 <= k < b.len() && b[k] == 0u8;
            assert(s[n + 1 + k] == 0u8);
        }
        assert forall|i: int, j: int| is_component(a, i, j) implies !is_dots(a, i, j) by {
            assert forall|k: int| i <= k < j implies s[k] != 0x2f by {
                assert(s[k] == a[k]);
            }
            assert(is_component(s, i, j));
            assert(i < j ==> s[i] == a[i]);
            assert(i + 1 < j ==> s[i + 1] == a[i + 1]);
        }
        assert forall|i: int, j: int| is_component(b, i, j) implies !is_dots(b, i, j) by {
            assert forall|k: int| n + 1 + i <= k < n + 1 + j implies s[k] != 0x2f by {
                assert(b[k - n - 1] == s[k]);
            }
            assert(i > 0 ==> s[n + 1 + i - 1] == b[i - 1]);
            assert(j < b.len() ==> s[n + 1 + j] == b[j]);
            assert(is_component(s, n + 1 + i, n + 1 + j));
            assert(i < j ==> s[n + 1 + i] == b[i]);
            assert(i + 1 < j ==> s[n + 1 + i + 1] == b[i + 1]);
        }
        if n == 0 {
            assert(is_component(a, 0, 0));
        }
        if b.len() == 0 {
            assert(is_component(b, 0, 0));
        }
    }
    if path_safe(a) && path_safe(b) {
        if s.contains(0u8) {
            let k = choose|k: int| 0 <= k < s.len() && s[k] == 0u8;
            if k < n {
                assert(a[k] == 0u8);
            } else {
                assert(b[k - n - 1] == 0u8);
            }
        }
        assert forall|i: int, j: int| is_component(s, i, j) implies !is_dots(s, i, j) by {
            if j <= n {
                assert forall|k: int| i <= k < j implies a[k] != 0x2f by {
                    assert(s[k] == a[k]);
                }
                assert(i > 0 ==> s[i - 1] == a[i - 1]);
                assert(j < n ==> s[j] == a[j]);
                assert(is_component(a, i, j));
                assert(i < j ==> s[i] == a[i]);
                assert(i + 1 < j ==> s[i + 1] == a[i + 1]);
            } else {
                if i <= n {
                    assert(s[n] != 0x2f);
                }
                let x = i - n - 1;
                let y = j - n - 1;
                assert forall|k: int| x <= k < y implies b[k] != 0x2f by {
                    assert(b[k] == s[n + 1 + k]);
                }
                assert(x > 0 ==> b[x - 1] == s[i - 1]);
                assert(y < b.len() ==> b[y] == s[j]);
                assert(is_component(b, x, y));
                assert(x < y ==> b[x] == s[i]);
                assert(x + 1 < y ==> b[x + 1] == s[i + 1]);
            }
        }
    }
}

/// What is written for a plainly stored entry: the bytes behind its local
/// header, whose name and extra field are skipped.
pub proof fn stored_data_is_read(blob: Seq<u8>, e: EntryView, data: int)
    requires
        e.method == 0,
        e.comp_size == e.uncomp_size,
        e.local_ofs + 30 <= blob.len(),
        blob[e.local_ofs as int] == 0x50,
        blob[e.local_ofs + 1] == 0x4b,
        blob[e.local_ofs + 2] == 3,
        blob[e.local_ofs + 3] == 4,
        data == e.local_ofs + 30 + blob[e.local_ofs + 26] + 256 * blob[e.local_ofs + 27]
            + blob[e.local_ofs + 28] + 256 * blob[e.local_ofs + 29],
        data + e.comp_size <= blob.len(),
    ensures
        stored(blob, e) == Ok::<Seq<u8>, EntryError>(blob.subrange(data, data + e.comp_size)),
{
}

/// Settling an offered entry, whatever came of it, leads to the one directly
/// behind it; only a written one is counted and charged.
pub proof fn settling_moves_to_the_next_entry(x: ExtractionView, outcome: Outcome)
    requires
        0 <= x.at < x.entries.len(),
        x.entries[x.at].comp_size <= x.budget,
    ensures
        x.next() == Some(x.entries[x.at]),
        x.settle(outcome).at == x.at + 1,
        x.settle(outcome).entries == x.entries,
        x.settle(outcome).blob == x.blob,
        outcome == Outcome::Written ==> x.settle(outcome).extracted == x.extracted + 1 && x.settle(
            outcome,
        ).budget == x.budget - x.entries[x.at].comp_size,
        outcome != Outcome::Written ==> x.settle(outcome).extracted == x.extracted && x.settle(
            outcome,
        ).budget == x.budget,
{
}

/// The sizes of the first `n` entries together.
pub open spec fn sizes(entries: Seq<EntryView>, n: int) -> int
    decreases n,
{
    if n <= 0 {
        0
    } else {
        sizes(entries, n - 1) + entries[n - 1].comp_size
    }
}

/// How many of the outcomes are written files.
pub open spec fn written(outcomes: Seq<Outcome>) -> int
    decreases outcomes.len(),
{
    if outcomes.len() == 0 {
        0
    } else {
        written(outcomes.drop_last()) + (if outcomes.last() == Outcome::Written {
            1int
        } else {
            0
        })
    }
}

/// Every entry gets its turn: where they fit into the budget together, each is
/// offered in order, whatever became of those before it, and at the end as many
/// are counted as were written.
pub proof fn every_entry_gets_its_turn(x: ExtractionView, outcomes: Seq<Outcome>)
    requires
        x.at == 0,
        x.extracted == 0,
        sizes(x.entries, x.entries.len() as int) <= x.budget,
        outcomes.len() <= x.entries.len(),
    ensures
        x.run(outcomes).at == outcomes.len(),
        x.run(outcomes).entries == x.entries,
        x.run(outcomes).extracted == written(outcomes),
        x.run(outcomes).budget >= x.budget - sizes(x.entries, outcomes.len() as int),
        outcomes.len() < x.entries.len() ==> x.run(outcomes).next() == Some(
            x.entries[outcomes.len() as int],
        ),
        outcomes.len() == x.entries.len() ==> x.run(outcomes).next() is None,
    decreases outcomes.len(),
{
    if outcomes.len() > 0 {
        every_entry_gets_its_turn(x, outcomes.drop_last());
    }
    let n = outcomes.len() as int;
    if n < x.entries.len() {
        sizes_grow(x.entries, n + 1, x.entries.len() as int);
    }
}

proof fn sizes_grow(entries: Seq<EntryView>, a: int, b: int)
    requires
        0 <= a <= b,
    ensures
        sizes(entries, a) <= sizes(entries, b),
    decreases b - a,
{
    if a < b {
        sizes_grow(entries, a, b - 1);
    }
}

/// A map is known by its extension.
pub proof fn maps_are_known_by_their_extension(stem: Seq<char>, name: Seq<char>)
    requires
        stem.len() > 0,
    ensures
        is_map_file(stem + ".bsp"@),
        is_map_file(name) ==> name.len() > 4 && name == name.take(name.len() - 4) + ".bsp"@,
        !is_map_file(".bsp"@),
{
    reveal_strlit(".bsp");
    let s = stem + ".bsp"@;
    assert(s.skip(s.len() - 4) =~= ".bsp"@);
    if is_map_file(name) {
        assert(name =~= name.take(name.len() - 4) + name.skip(name.len() - 4));
    }
}

/// The sweep counts every file that was unpacked, and tells of every map that
/// was not clean; a map that could not be read stops no other.
pub proof fn every_map_is_swept(reports: Seq<MapReport>, n: int)
    requires
        0 < n <= reports.len(),
    ensures
        reports[n - 1].outcome matches Ok(k) ==> swept(reports, n) == swept(reports, n - 1) + k,
        reports[n - 1].outcome is Err ==> swept(reports, n) == swept(reports, n - 1),
        reports[n - 1].outcome == Ok::<usize, String>(0) ==> sweep_lines(reports, n)
            == sweep_lines(reports, n - 1),
        reports[n - 1].outcome != Ok::<usize, String>(0) ==> sweep_lines(reports, n).len()
            == sweep_lines(reports, n - 1).len() + 1 && sweep_lines(reports, n).drop_last()
            == sweep_lines(reports, n - 1),
        swept(reports, 0) == 0,
        sweep_lines(reports, 0).len() == 0,
{
    if sweep_line(reports[n - 1]) is Some {
        assert(sweep_lines(reports, n).drop_last() =~= sweep_lines(reports, n - 1));
    }
}

/// The entries are those of the directory that the last end record names: its
/// place stands 16 bytes into the record, and the count 10 bytes.
pub proof fn the_named_directory_is_walked(file: Seq<u8>, x: ExtractionView, i: int)
    requires
        extraction_of(file, x),
        x.blob.len() > 0,
        eocd_at(x.blob, i),
        forall|j: int| j > i ==> !eocd_at(x.blob, j),
    ensures
        x.entries == broken_entries(
            x.blob,
            x.blob[i + 16] + 256 * x.blob[i + 17] + 65_536 * x.blob[i + 18] + 16_777_216 * x.blob[i
                + 19],
            (x.blob[i + 10] + 256 * x.blob[i + 11]) as nat,
        ),
        x.budget == x.blob.len(),
        x.at == 0,
        x.extracted == 0,
{
    let k = choose|k: int|
        #[trigger] eocd_at(x.blob, k) && (forall|j: int| j > k ==> !eocd_at(x.blob, j))
            && x.entries == broken_entries(
            x.blob,
            le32(x.blob, k + 16),
            le16(x.blob, k + 10) as nat,
        );
    assert(k == i) by {
        if k < i {
            assert(!eocd_at(x.blob, i));
        }
        if i < k {
            assert(!eocd_at(x.blob, k));
        }
    }
}

/// A pak with a directory can be extracted, and so can an empty one.
pub proof fn a_pak_with_a_directory_is_extracted(file: Seq<u8>, blob: Seq<u8>, i: int)
    requires
        pak_of(file) == Ok::<Seq<u8>, PakError>(blob),
    ensures
        eocd_at(blob, i) ==> extraction_error(file) is None,
        blob.len() == 0 ==> extraction_error(file) is None,
        blob.len() > 0 && (forall|j: int| !eocd_at(blob, j)) ==> extraction_error(file) == Some(
            PakError::NoDirectory,
        ),
{
}

} // verus!
