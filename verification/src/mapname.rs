//! The map name in a server-info message.
//!
//! The message holds pointers to a few short texts: game directory, map name,
//! sky, host name, in this order. Everything behind the pointers is read
//! without trusting them, and a map name has to look like one.
use vstd::prelude::*;
use vstd::utf8::{encode_utf8, valid_utf8};

use crate::bytes::{c_prefix, c_string};
use crate::procfs::{maps_addr, Mapping};
use crate::text::{chars, copy_str, same_str, utf8_string};

verus! {

/// Smallest pointer that is followed.
pub const MIN_POINTER: u64 = 0x1_0000;

/// First field of the message that is looked at.
pub const FIRST_FIELD: u64 = 0x40;

/// How many fields are looked at.
pub const FIELDS: usize = 12;

/// A character of a map name.
pub open spec fn is_name_char(c: char) -> bool {
    'a' <= c <= 'z' || 'A' <= c <= 'Z' || '0' <= c <= '9' || c == '_' || c == '-'
}

/// A plausible map name: 3 to 64 letters, digits, underscores and dashes.
pub open spec fn is_plausible(s: Seq<char>) -> bool {
    &&& 3 <= s.len() <= 64
    &&& forall|i: int| 0 <= i < s.len() ==> is_name_char(#[trigger] s[i])
}

/// Whether a text is a plausible map name.
pub fn plausible_map_name(s: &str) -> (r: bool)
    ensures
        r == is_plausible(s@),
{
    let cs: Vec<char> = chars(s);
    if cs.len() < 3 || cs.len() > 64 {
        return false;
    }
    let mut i: usize = 0;
    while i < cs.len()
        invariant
            i <= cs.len(),
            cs@ == s@,
            forall|j: int| 0 <= j < i ==> is_name_char(#[trigger] cs@[j]),
        decreases cs.len() - i,
    {
        let c: char = cs[i];
        let good: bool = ('a' <= c && c <= 'z') || ('A' <= c && c <= 'Z') || ('0' <= c && c <= '9')
            || c == '_' || c == '-';
        if !good {
            assert(!is_name_char(s@[i as int]));
            return false;
        }
        i = i + 1;
    }
    true
}

/// A plausible map name stays in its directory: it holds no separator, no dot
/// and no NUL.
pub proof fn map_name_stays_in_place(s: Seq<char>)
    requires
        is_plausible(s),
    ensures
        !s.contains('/'),
        !s.contains('\\'),
        !s.contains('.'),
        !s.contains(':'),
        !s.contains('\0'),
{
    assert forall|c: char| s.contains(c) implies is_name_char(c) by {
        let i = choose|i: int| 0 <= i < s.len() && s[i] == c;
        assert(is_name_char(s[i]));
    }
}

/// A game directory, which comes before the map name.
pub open spec fn is_game_dir(s: Seq<char>) -> bool {
    ||| s == "cstrike"@
    ||| s == "hl2"@
    ||| s == "valve"@
    ||| s == "source"@
    ||| s == "tf2"@
    ||| s == "tf"@
    ||| s == "czero"@
    ||| s == "dods"@
    ||| s == "csgo"@
    ||| s == "left4dead"@
    ||| s == "portal"@
}

/// Whether a text is a game directory.
pub fn game_dir(s: &str) -> (r: bool)
    ensures
        r == is_game_dir(s@),
{
    same_str(s, "cstrike") || same_str(s, "hl2") || same_str(s, "valve") || same_str(s, "source")
        || same_str(s, "tf2") || same_str(s, "tf") || same_str(s, "czero") || same_str(s, "dods")
        || same_str(s, "csgo") || same_str(s, "left4dead") || same_str(s, "portal")
}

/// The bytes before the first NUL, or all of them.
pub open spec fn c_cut(buf: Seq<u8>) -> Seq<u8> {
    match c_prefix(buf, 0) {
        Some(s) => s,
        None => buf,
    }
}

/// What was read behind a pointer, as a text: up to the first NUL, or all of
/// it. Nothing read, or bytes that are not UTF-8, are no text.
pub fn rd_cstr(buf: &[u8]) -> (r: Option<String>)
    ensures
        match r {
            Some(s) => buf@.len() > 0 && encode_utf8(s@) == c_cut(buf@),
            None => buf@.len() == 0 || !valid_utf8(c_cut(buf@)),
        },
{
    if buf.len() == 0 {
        return None;
    }
    match c_string(buf) {
        Some(s) => utf8_string(s),
        None => utf8_string(vstd::slice::slice_to_vec(buf)),
    }
}

/// What was read behind a pointer, as a text that ends with a NUL. A pointer
/// into the first pages is not followed.
pub fn read_cstring(address: u64, buf: &[u8]) -> (r: Option<String>)
    ensures
        match r {
            Some(s) => address >= MIN_POINTER && c_prefix(buf@, 0) == Some(encode_utf8(s@)),
            None => address < MIN_POINTER || (c_prefix(buf@, 0) matches Some(b)
                ==> !valid_utf8(b)),
        },
{
    if address < MIN_POINTER {
        return None;
    }
    match c_string(buf) {
        Some(s) => utf8_string(s),
        None => None,
    }
}

/// One pointer field of the message and the text behind it, as far as they
/// could be read.
pub struct Field {
    pub pointer: Option<u64>,
    pub text: Option<String>,
}

/// The address lies in some mapping.
pub open spec fn is_mapped(maps: Seq<Mapping>, a: int) -> bool {
    exists|i: int| 0 <= i < maps.len() && maps_addr((#[trigger] maps[i])@, a)
}

/// Whether an address lies in some mapping.
fn mapped(maps: &[Mapping], a: u64) -> (r: bool)
    ensures
        r == is_mapped(maps@, a as int),
{
    let mut i: usize = 0;
    while i < maps.len()
        invariant
            i <= maps.len(),
            forall|j: int| 0 <= j < i ==> !maps_addr((#[trigger] maps@[j])@, a as int),
        decreases maps.len() - i,
    {
        if maps[i].start <= a && a < maps[i].end {
            return true;
        }
        i = i + 1;
    }
    false
}

/// The text of a field that counts: its pointer leads into the process, and
/// the text is a plausible map name.
pub open spec fn field_text(f: Field, maps: Seq<Mapping>) -> Option<Seq<char>> {
    match (f.pointer, f.text) {
        (Some(p), Some(s)) => if p >= MIN_POINTER && is_mapped(maps, p as int) && is_plausible(
            s@,
        ) {
            Some(s@)
        } else {
            None
        },
        _ => None,
    }
}

/// The texts that count of the first `n` fields, each with its offset.
pub open spec fn field_texts(fields: Seq<Field>, maps: Seq<Mapping>, n: int) -> Seq<
    (int, Seq<char>),
>
    decreases n,
{
    if n <= 0 {
        Seq::empty()
    } else {
        match field_text(fields[n - 1], maps) {
            Some(s) => field_texts(fields, maps, n - 1).push((FIRST_FIELD + 8 * (n - 1), s)),
            None => field_texts(fields, maps, n - 1),
        }
    }
}

/// The place of the first game directory at or after `i`.
pub open spec fn dir_from(texts: Seq<(int, Seq<char>)>, i: int) -> Option<int>
    decreases texts.len() - i,
{
    if i < 0 || i >= texts.len() {
        None
    } else if is_game_dir(texts[i].1) {
        Some(i)
    } else {
        dir_from(texts, i + 1)
    }
}

/// The map name among the texts: the one behind the game directory. Where no
/// game directory is known, the second.
pub open spec fn picked(texts: Seq<(int, Seq<char>)>) -> Option<(int, Seq<char>)> {
    let at = match dir_from(texts, 0) {
        Some(i) => i + 1,
        None => 1,
    };
    if at < texts.len() {
        Some(texts[at])
    } else {
        None
    }
}

/// The name and the offset that is remembered. An offset that is remembered
/// already counts first, if what stands there is a map name.
pub open spec fn detected(
    known: int,
    known_text: Option<Seq<char>>,
    fields: Seq<Field>,
    maps: Seq<Mapping>,
) -> (Option<Seq<char>>, int) {
    match known_text {
        Some(s) if known != 0 && is_plausible(s) && !is_game_dir(s) => (Some(s), known),
        _ => match picked(field_texts(fields, maps, fields.len() as int)) {
            Some((off, s)) => (Some(s), off),
            None => (None, 0),
        },
    }
}

/// The value of a text that may be missing.
pub open spec fn text_view(t: Option<String>) -> Option<Seq<char>> {
    match t {
        Some(s) => Some(s@),
        None => None,
    }
}

/// The texts of fields as values.
pub open spec fn pair_views(v: Seq<(u64, String)>) -> Seq<(int, Seq<char>)> {
    Seq::new(v.len(), |i: int| (v[i].0 as int, v[i].1@))
}

/// Finds the map name in a message. `known` is the offset that is remembered,
/// or zero, and `known_text` what stands behind the pointer there. The second
/// result is the offset to remember.
pub fn detect_mapname(
    known: u64,
    known_text: Option<String>,
    fields: &[Field],
    maps: &[Mapping],
) -> (r: (Option<String>, u64))
    requires
        fields.len() == FIELDS,
    ensures
        (text_view(r.0), r.1 as int) == detected(
            known as int,
            text_view(known_text),
            fields@,
            maps@,
        ),
{
    if known != 0 {
        match known_text {
            Some(s) => {
                if plausible_map_name(s.as_str()) && !game_dir(s.as_str()) {
                    return (Some(s), known);
                }
            },
            None => {},
        }
    }
    let mut texts: Vec<(u64, String)> = Vec::new();
    let mut i: usize = 0;
    assert(pair_views(texts@) =~= Seq::empty());
    while i < fields.len()
        invariant
            i <= fields.len(),
            fields.len() == FIELDS,
            pair_views(texts@) == field_texts(fields@, maps@, i as int),
        decreases fields.len() - i,
    {
        let ghost before = pair_views(texts@);
        match (fields[i].pointer, &fields[i].text) {
            (Some(p), Some(s)) => {
                if p >= MIN_POINTER && mapped(maps, p) && plausible_map_name(s.as_str()) {
                    let text: String = copy_str(s);
                    texts.push((FIRST_FIELD + 8 * (i as u64), text));
                    assert(pair_views(texts@) =~= before.push(
                        ((FIRST_FIELD + 8 * i) as int, text@),
                    ));
                }
            },
            _ => {},
        }
        i = i + 1;
    }
    let ghost views = pair_views(texts@);
    let size: usize = texts.len();
    let mut at: usize = 0;
    while at < texts.len() && !game_dir(texts[at].1.as_str())
        invariant
            at <= texts.len(),
            size == texts.len(),
            views == pair_views(texts@),
            dir_from(views, 0) == dir_from(views, at as int),
        decreases texts.len() - at,
    {
        assert(views[at as int].1 == texts@[at as int].1@);
        at = at + 1;
    }
    if at < size {
        assert(views[at as int].1 == texts@[at as int].1@);
    }
    let pick: usize = if at < size {
        at + 1
    } else {
        1
    };
    if pick < size {
        assert(views[pick as int] == (texts@[pick as int].0 as int, texts@[pick as int].1@));
        (Some(copy_str(&texts[pick].1)), texts[pick].0)
    } else {
        (None, 0)
    }
}

proof fn texts_are_plausible(fields: Seq<Field>, maps: Seq<Mapping>, n: int)
    ensures
        forall|i: int|
            0 <= i < field_texts(fields, maps, n).len() ==> is_plausible(
                (#[trigger] field_texts(fields, maps, n)[i]).1,
            ),
    decreases n,
{
    if n > 0 {
        texts_are_plausible(fields, maps, n - 1);
        let all = field_texts(fields, maps, n);
        let before = field_texts(fields, maps, n - 1);
        assert forall|i: int| 0 <= i < all.len() implies is_plausible((#[trigger] all[i]).1) by {
            if i < before.len() {
                assert(all[i] == before[i]);
            }
        }
    }
}

proof fn dir_from_bound(texts: Seq<(int, Seq<char>)>, i: int)
    requires
        0 <= i,
    ensures
        dir_from(texts, i) matches Some(d) ==> i <= d < texts.len(),
    decreases texts.len() - i,
{
    if i < texts.len() {
        dir_from_bound(texts, i + 1);
    }
}

/// Whatever the message holds, a detected name is a plausible map name.
pub proof fn detected_name_is_plausible(
    known: int,
    known_text: Option<Seq<char>>,
    fields: Seq<Field>,
    maps: Seq<Mapping>,
)
    ensures
        detected(known, known_text, fields, maps).0 matches Some(s) ==> is_plausible(s),
{
    let texts = field_texts(fields, maps, fields.len() as int);
    texts_are_plausible(fields, maps, fields.len() as int);
    dir_from_bound(texts, 0);
    if picked(texts) is Some {
        let at = match dir_from(texts, 0) {
            Some(i) => i + 1,
            None => 1,
        };
        assert(is_plausible(texts[at].1));
    }
}

/// The map name of a Windows message: plausible, and of the game's directory.
pub open spec fn name_for(map: Option<Seq<char>>, game: Option<Seq<char>>) -> Option<Seq<char>> {
    match (map, game) {
        (Some(m), Some(g)) => if is_plausible(m) && g == "cstrike"@ {
            Some(m)
        } else {
            None
        },
        _ => None,
    }
}

/// A plausible map of the game is named, and no other.
pub proof fn a_map_of_the_game_is_named(map: Seq<char>, game: Seq<char>)
    ensures
        is_plausible(map) ==> name_for(Some(map), Some("cstrike"@)) == Some(map),
        !is_plausible(map) ==> name_for(Some(map), Some(game)) is None,
        game != "cstrike"@ ==> name_for(Some(map), Some(game)) is None,
        name_for(None, Some(game)) is None,
        name_for(Some(map), None) is None,
{
}

/// The map name of a Windows message: plausible, and behind the game directory
/// that it belongs to.
pub fn map_name(map: Option<String>, game: Option<String>) -> (r: Option<String>)
    ensures
        text_view(r) == (match (text_view(map), text_view(game)) {
            (Some(m), Some(g)) => if is_plausible(m) && g == "cstrike"@ {
                Some(m)
            } else {
                None
            },
            _ => None,
        }),
        text_view(r) == name_for(text_view(map), text_view(game)),
{
    match (map, game) {
        (Some(m), Some(g)) => if plausible_map_name(m.as_str()) && same_str(
            g.as_str(),
            "cstrike",
        ) {
            Some(m)
        } else {
            None
        },
        _ => None,
    }
}

/// A map name has 3 to 64 characters: letters, digits, underscores and dashes
/// of ASCII, and nothing else.
pub proof fn map_names_are_plain(s: Seq<char>)
    ensures
        is_plausible(s) <==> 3 <= s.len() <= 64 && forall|i: int|
            0 <= i < s.len() ==> {
                let c = #[trigger] s[i] as int;
                48 <= c <= 57 || 65 <= c <= 90 || 97 <= c <= 122 || c == 95 || c == 45
            },
{
    if is_plausible(s) {
        assert forall|i: int| 0 <= i < s.len() implies {
            let c = #[trigger] s[i] as int;
            48 <= c <= 57 || 65 <= c <= 90 || 97 <= c <= 122 || c == 95 || c == 45
        } by {
            assert(is_name_char(s[i]));
        }
    }
}

/// The name behind the first game directory is the map, and where no directory
/// is known the second text is.
pub proof fn the_name_behind_the_directory_is_picked(texts: Seq<(int, Seq<char>)>, i: int)
    requires
        0 <= i,
        forall|j: int| 0 <= j < i && j < texts.len() ==> !is_game_dir((#[trigger] texts[j]).1),
    ensures
        i + 1 < texts.len() && is_game_dir(texts[i].1) ==> picked(texts) == Some(texts[i + 1]),
        i + 1 == texts.len() && is_game_dir(texts[i].1) ==> picked(texts) is None,
        i >= texts.len() > 1 ==> picked(texts) == Some(texts[1]),
        i >= texts.len() && texts.len() < 2 ==> picked(texts) is None,
{
    dir_from_is(texts, 0, i);
}

proof fn dir_from_is(texts: Seq<(int, Seq<char>)>, from: int, i: int)
    requires
        0 <= from <= i,
        forall|j: int| 0 <= j < i && j < texts.len() ==> !is_game_dir((#[trigger] texts[j]).1),
    ensures
        i < texts.len() && is_game_dir(texts[i].1) ==> dir_from(texts, from) == Some(i),
        i >= texts.len() ==> dir_from(texts, from) is None,
    decreases i - from,
{
    if from < i && from < texts.len() {
        assert(!is_game_dir(texts[from].1));
        dir_from_is(texts, from + 1, i);
    }
}

/// A field counts: its pointer leads into the process, and a plausible name
/// stands behind it.
pub open spec fn counts(f: Field, maps: Seq<Mapping>, s: Seq<char>) -> bool {
    &&& f.pointer matches Some(p) && p >= 0x1_0000 && exists|i: int|
        0 <= i < maps.len() && (#[trigger] maps[i]).start <= p < maps[i].end
    &&& f.text matches Some(t) && t@ == s
    &&& is_plausible(s)
}

proof fn counting_is_text(f: Field, maps: Seq<Mapping>, s: Seq<char>)
    ensures
        field_text(f, maps) == Some(s) <==> counts(f, maps, s),
{
    if counts(f, maps, s) {
        let p = f.pointer->0;
        let i = choose|i: int| 0 <= i < maps.len() && (#[trigger] maps[i]).start <= p < maps[i].end;
        assert(maps_addr(maps[i]@, p as int));
    }
    if field_text(f, maps) == Some(s) {
        let p = f.pointer->0;
        let i = choose|i: int| 0 <= i < maps.len() && maps_addr((#[trigger] maps[i])@, p as int);
        assert(maps[i].start <= p < maps[i].end);
    }
}

/// A message gives its map: where a field says `cstrike`, no field before it
/// counts, and the one behind it holds a name, that is the map, and its offset
/// is remembered; and a name at the remembered offset is taken at once.
pub proof fn a_message_gives_its_map(
    known: int,
    known_text: Option<Seq<char>>,
    fields: Seq<Field>,
    maps: Seq<Mapping>,
    i: int,
    map: Seq<char>,
)
    requires
        0 <= i,
        i + 1 < fields.len(),
        forall|j: int, s: Seq<char>| 0 <= j < i ==> !#[trigger] counts(fields[j], maps, s),
        counts(fields[i], maps, "cstrike"@),
        counts(fields[i + 1], maps, map),
    ensures
        known == 0 || known_text is None ==> detected(known, known_text, fields, maps) == (
            Some(map),
            0x40 + 8 * (i + 1),
        ),
        known != 0 && known_text == Some(map) && !is_game_dir(map) ==> detected(
            known,
            known_text,
            fields,
            maps,
        ) == (Some(map), known),
{
    counting_is_text(fields[i], maps, "cstrike"@);
    counting_is_text(fields[i + 1], maps, map);
    nothing_counts(fields, maps, i);
    let n = fields.len() as int;
    let two = seq![(0x40 + 8 * i, "cstrike"@), (0x40 + 8 * (i + 1), map)];
    reveal_with_fuel(field_texts, 3);
    assert(field_texts(fields, maps, i + 2) =~= two);
    texts_begin(fields, maps, i + 2, n);
    let texts = field_texts(fields, maps, n);
    assert(texts.take(2)[0] == two[0] && texts.take(2)[1] == two[1]);
    assert(texts[0] == two[0] && texts[1] == two[1]);
    the_name_behind_the_directory_is_picked(texts, 0);
}

proof fn nothing_counts(fields: Seq<Field>, maps: Seq<Mapping>, n: int)
    requires
        n <= fields.len(),
        forall|j: int, s: Seq<char>| 0 <= j < n ==> !#[trigger] counts(fields[j], maps, s),
    ensures
        field_texts(fields, maps, n) == Seq::<(int, Seq<char>)>::empty(),
    decreases n,
{
    if n > 0 {
        nothing_counts(fields, maps, n - 1);
        if field_text(fields[n - 1], maps) is Some {
            let s = field_text(fields[n - 1], maps)->0;
            counting_is_text(fields[n - 1], maps, s);
            assert(counts(fields[n - 1], maps, s));
        }
    }
}

proof fn texts_begin(fields: Seq<Field>, maps: Seq<Mapping>, a: int, b: int)
    requires
        a <= b,
    ensures
        field_texts(fields, maps, a).len() <= field_texts(fields, maps, b).len(),
        field_texts(fields, maps, b).take(field_texts(fields, maps, a).len() as int)
            == field_texts(fields, maps, a),
    decreases b - a,
{
    let first = field_texts(fields, maps, a);
    if a < b {
        texts_begin(fields, maps, a, b - 1);
        assert(field_texts(fields, maps, b).take(first.len() as int) =~= field_texts(
            fields,
            maps,
            b - 1,
        ).take(first.len() as int));
    } else {
        assert(first.take(first.len() as int) =~= first);
    }
}

/// The message is looked at over twelve fields.
pub proof fn twelve_fields_are_looked_at()
    ensures
        FIELDS == 12,
{
}

} // verus!
