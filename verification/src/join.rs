//! What to do when a server names its map.
use vstd::prelude::*;

use crate::checksums::{
    first_row_of_the_md5_is_found, found_row_is_in_the_list, hex_bytes, hex_of, is_row_text,
    lookup_md5, lookup_md5_windows, lookups_agree, loose_from, md5_hex_can_be_looked_up, sha1_for,
};
use crate::mapfetch::Platform;
use crate::phrase::same_but_case;
use crate::text::lines_of;

verus! {

/// What to do about the map's version.
pub struct JoinPlan {
    /// The version to fetch.
    pub fetch: Option<String>,
    /// What to tell the user, and whether only those who debug.
    pub log: Option<(String, bool)>,
}

/// The value of a `JoinPlan`.
#[verifier::ext_equal]
pub struct JoinView {
    pub fetch: Option<Seq<char>>,
    pub log: Option<(Seq<char>, bool)>,
}

impl View for JoinPlan {
    type V = JoinView;

    open spec fn view(&self) -> JoinView {
        JoinView {
            fetch: match self.fetch {
                Some(s) => Some(s@),
                None => None,
            },
            log: match self.log {
                Some((s, d)) => Some((s@, d)),
                None => None,
            },
        }
    }
}

/// The version that the list gives for an MD5.
pub open spec fn version_of(platform: Platform, csv: Seq<char>, md5: Seq<char>) -> Option<
    Seq<char>,
> {
    match platform {
        Platform::Linux => sha1_for(csv, md5),
        Platform::Windows => loose_from(lines_of(csv), md5, 0),
    }
}

/// Said of a map whose version is known.
pub open spec fn known_text(platform: Platform, map: Seq<char>, sha1: Seq<char>) -> Seq<char> {
    match platform {
        Platform::Linux => "server map: "@ + map + " (sha1 "@ + sha1 + ")"@,
        Platform::Windows => "fastdl: server map "@ + map + " -> sha1 "@ + sha1,
    }
}

/// Said of a map whose version is not known.
pub open spec fn unknown_text(platform: Platform, md5: Seq<char>) -> Seq<char> {
    match platform {
        Platform::Linux => "server map md5 "@ + md5 + " not in fastdl.me csv"@,
        Platform::Windows => "fastdl: server map MD5 "@ + md5 + " is not indexed"@,
    }
}

/// What to do about the version of a map with this MD5. Without the list
/// nothing is done.
pub open spec fn join_plan(
    platform: Platform,
    map: Seq<char>,
    md5: Seq<u8>,
    csv: Option<Seq<char>>,
) -> JoinView {
    match csv {
        None => JoinView { fetch: None, log: None },
        Some(list) => match version_of(platform, list, hex_of(md5)) {
            Some(sha1) => JoinView {
                fetch: Some(sha1),
                log: Some((known_text(platform, map, sha1), false)),
            },
            None => JoinView {
                fetch: None,
                log: Some((unknown_text(platform, hex_of(md5)), true)),
            },
        },
    }
}

/// What to do about the version of a map with this MD5.
pub fn on_serverinfo(platform: Platform, map: &str, md5: &[u8], csv: Option<&str>) -> (r: JoinPlan)
    ensures
        r@ == join_plan(
            platform,
            map@,
            md5@,
            match csv {
                Some(c) => Some(c@),
                None => None,
            },
        ),
{
    let list: &str = match csv {
        None => {
            return JoinPlan { fetch: None, log: None };
        },
        Some(c) => c,
    };
    let hex: String = hex_bytes(md5);
    let found: Option<String> = match platform {
        Platform::Linux => lookup_md5(list, hex.as_str()),
        Platform::Windows => lookup_md5_windows(list, hex.as_str()),
    };
    match found {
        Some(sha1) => {
            let mut text: String = match platform {
                Platform::Linux => "server map: ".to_owned(),
                Platform::Windows => "fastdl: server map ".to_owned(),
            };
            text.append(map);
            match platform {
                Platform::Linux => {
                    text.append(" (sha1 ");
                    text.append(sha1.as_str());
                    text.append(")");
                },
                Platform::Windows => {
                    text.append(" -> sha1 ");
                    text.append(sha1.as_str());
                },
            }
            JoinPlan { fetch: Some(sha1), log: Some((text, false)) }
        },
        None => {
            let mut text: String = match platform {
                Platform::Linux => "server map md5 ".to_owned(),
                Platform::Windows => "fastdl: server map MD5 ".to_owned(),
            };
            text.append(hex.as_str());
            match platform {
                Platform::Linux => text.append(" not in fastdl.me csv"),
                Platform::Windows => text.append(" is not indexed"),
            }
            JoinPlan { fetch: None, log: Some((text, true)) }
        },
    }
}

/// A map that the list knows is fetched: the version in the first row of its
/// MD5, on both systems, and the user is told.
pub proof fn a_listed_map_is_fetched(
    platform: Platform,
    map: Seq<char>,
    md5: Seq<u8>,
    csv: Seq<char>,
    i: int,
    sha1: Seq<char>,
    m: Seq<char>,
)
    requires
        md5.len() == 16,
        0 <= i < lines_of(csv).len(),
        is_row_text(lines_of(csv)[i], sha1, m),
        same_but_case(m, hex_of(md5)),
        forall|j: int, s: Seq<char>, x: Seq<char>|
            0 <= j < i && #[trigger] is_row_text(lines_of(csv)[j], s, x) ==> !same_but_case(
                x,
                hex_of(md5),
            ),
    ensures
        join_plan(platform, map, md5, Some(csv)).fetch == Some(sha1),
        join_plan(platform, map, md5, Some(csv)).log matches Some((_, quiet)) && !quiet,
{
    first_row_of_the_md5_is_found(csv, hex_of(md5), i, sha1, m);
}

/// A map that the list does not know is not fetched, and only those who debug
/// are told; without a list nothing happens.
pub proof fn an_unlisted_map_is_left(
    platform: Platform,
    map: Seq<char>,
    md5: Seq<u8>,
    csv: Seq<char>,
)
    requires
        md5.len() == 16,
        forall|j: int, s: Seq<char>, x: Seq<char>|
            0 <= j < lines_of(csv).len() && #[trigger] is_row_text(lines_of(csv)[j], s, x)
                ==> !same_but_case(x, hex_of(md5)),
    ensures
        join_plan(platform, map, md5, Some(csv)).fetch is None,
        join_plan(platform, map, md5, Some(csv)).log matches Some((_, quiet)) && quiet,
        join_plan(platform, map, md5, None) == (JoinView { fetch: None, log: None }),
{
    let hex = hex_of(md5);
    md5_hex_can_be_looked_up(md5);
    lookups_agree(csv, hex);
    found_row_is_in_the_list(csv, hex);
    if sha1_for(csv, hex) is Some {
        let s = sha1_for(csv, hex)->0;
        let (k, m) = choose|k: int, m: Seq<char>|
            0 <= k < lines_of(csv).len() && #[trigger] is_row_text(lines_of(csv)[k], s, m)
                && same_but_case(m, hex);
        assert(is_row_text(lines_of(csv)[k], s, m));
    }
}

} // verus!
