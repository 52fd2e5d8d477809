//! Song metadata: the fields read from a song's `song.ini`, interpreted
//! from the sections an outside INI reader parses.

use vstd::prelude::*;

verus! {

use vstd::string::StringExecFns;
use vstd::string::StringSliceAdditionalSpecFns;
use vstd::utf8::encode_utf8;

/// A song's descriptive metadata.
#[derive(Clone, Debug)]
pub struct SongMeta {
    pub name: String,
    pub artist: String,
    pub album: String,
    pub year: i32,
    pub preview_start: Option<u32>,
}

/// Why a song's metadata could not be read.
#[derive(Clone, Copy, Debug, PartialEq, Eq, Structural)]
pub enum SongMetaError {
    NotIni,
    NoSongSection,
}

/// What the INI reader parses a text into: each section's name (none for
/// the unnamed leading section) with its properties in order, or nothing
/// for text it rejects. A function of the text alone.
pub uninterp spec fn ini_sections_of(text: Seq<char>) -> Option<
    Seq<(Option<Seq<char>>, Seq<(Seq<char>, Seq<char>)>)>,
>;

/// The views of parsed sections.
pub open spec fn sec_views(v: Seq<(Option<String>, Vec<(String, String)>)>) -> Seq<
    (Option<Seq<char>>, Seq<(Seq<char>, Seq<char>)>),
> {
    v.map(
        |i: int, p: (Option<String>, Vec<(String, String)>)|
            (
                match p.0 {
                    Some(s) => Some(s@),
                    None => None,
                },
                p.1@.map(|j: int, kv: (String, String)| (kv.0@, kv.1@)),
            ),
    )
}

/// Relies on rust-ini's `Ini::load_from_str`: parses INI text into its
/// sections and properties, a function of the text alone.
#[verifier::external_body]
fn ini_sections(text: &str) -> (r: Option<Vec<(Option<String>, Vec<(String, String)>)>>)
    ensures
        r is Some <==> ini_sections_of(text@) is Some,
        r matches Some(v) ==> sec_views(v@) == ini_sections_of(text@)->Some_0,
{
    match ini::Ini::load_from_str(text) {
        Ok(doc) => Some(
            doc.iter().map(
                |(sec, props)|
                    (
                        sec.map(|s| s.to_string()),
                        props.iter().map(|(k, v)| (k.to_string(), v.to_string())).collect(),
                    ),
            ).collect(),
        ),
        Err(_) => None,
    }
}

/// An ASCII byte folded to lower case.
pub open spec fn fold_byte(b: u8) -> u8 {
    if 65 <= b && b <= 90 {
        (b + 32) as u8
    } else {
        b
    }
}

/// Whether two byte runs are equal up to ASCII case.
pub open spec fn eq_fold(a: Seq<u8>, b: Seq<u8>) -> bool {
    a.len() == b.len() && forall|i: int|
        0 <= i < a.len() ==> fold_byte(#[trigger] a[i]) == fold_byte(b[i])
}

/// Compares two byte runs up to ASCII case.
fn bytes_eq_fold(a: &[u8], b: &[u8]) -> (r: bool)
    ensures
        r == eq_fold(a@, b@),
{
    if a.len() != b.len() {
        return false;
    }
    let mut i: usize = 0;
    while i < a.len()
        invariant
            a@.len() == b@.len(),
            0 <= i <= a@.len(),
            forall|k: int| 0 <= k < i ==> fold_byte(#[trigger] a@[k]) == fold_byte(b@[k]),
        decreases a@.len() - i,
    {
        let x = a[i];
        let y = b[i];
        let fx = if 65 <= x && x <= 90 {
            x + 32
        } else {
            x
        };
        let fy = if 65 <= y && y <= 90 {
            y + 32
        } else {
            y
        };
        if fx != fy {
            proof {
                assert(fold_byte(a@[i as int]) != fold_byte(b@[i as int]));
            }
            return false;
        }
        i = i + 1;
    }
    true
}

/// First section whose name matches `song` up to ASCII case, or -1.
pub open spec fn song_section_index(
    secs: Seq<(Option<Seq<char>>, Seq<(Seq<char>, Seq<char>)>)>,
    i: int,
) -> int
    decreases secs.len() - i,
{
    if i < 0 || i >= secs.len() {
        -1
    } else {
        match secs[i].0 {
            Some(nm) => if eq_fold(encode_utf8(nm), "song".spec_bytes()) {
                i
            } else {
                song_section_index(secs, i + 1)
            },
            None => song_section_index(secs, i + 1),
        }
    }
}

/// The value of the first property named `key`.
pub open spec fn prop_value(props: Seq<(Seq<char>, Seq<char>)>, key: Seq<u8>, i: int) -> Option<
    Seq<char>,
>
    decreases props.len() - i,
{
    if i < 0 || i >= props.len() {
        None
    } else if encode_utf8(props[i].0) == key {
        Some(props[i].1)
    } else {
        prop_value(props, key, i + 1)
    }
}

/// A decimal digit run with an optional leading minus, as an `i32`; the
/// plain digits, as a `u32`.
pub open spec fn parse_i32_of(t: Seq<char>) -> Option<i32> {
    let b = encode_utf8(t);
    if b.len() > 0 && b[0] == 45 {
        match crate::chart_parser::parse_u32_of(b.subrange(1, b.len() as int)) {
            Some(v) => if v <= 0x8000_0000 {
                Some((-(v as int)) as i32)
            } else {
                None
            },
            None => None,
        }
    } else {
        match crate::chart_parser::parse_u32_of(b) {
            Some(v) => if v <= 0x7FFF_FFFF {
                Some(v as i32)
            } else {
                None
            },
            None => None,
        }
    }
}

/// Parses an optionally signed number fitting `i32` from a string.
fn parse_i32_str(t: &str) -> (r: Option<i32>)
    ensures
        r == parse_i32_of(t@),
{
    let b = t.as_bytes();
    let bv = crate::chart_parser::slice_to_vec_u8(b);
    if bv.len() > 0 && bv[0] == 45 {
        let rest = crate::chart_parser::bytes_suffix(&bv, 1);
        match crate::chart_parser::parse_u32_bytes_pub(&rest) {
            Some(v) => if v <= 0x8000_0000u32 {
                if v == 0x8000_0000u32 {
                    Some(i32::MIN)
                } else {
                    Some(-(v as i32))
                }
            } else {
                None
            },
            None => None,
        }
    } else {
        match crate::chart_parser::parse_u32_bytes_pub(&bv) {
            Some(v) => if v <= 0x7FFF_FFFFu32 {
                Some(v as i32)
            } else {
                None
            },
            None => None,
        }
    }
}

/// Parses an unsigned number fitting `u32` from a string.
fn parse_u32_str(t: &str) -> (r: Option<u32>)
    ensures
        r == crate::chart_parser::parse_u32_of(t.spec_bytes()),
{
    let b = t.as_bytes();
    let bv = crate::chart_parser::slice_to_vec_u8(b);
    crate::chart_parser::parse_u32_bytes_pub(&bv)
}

/// The metadata the song section's properties spell out: text fields
/// default to empty, the year to 2020, the preview start to none.
pub open spec fn meta_matches(
    props: Seq<(Seq<char>, Seq<char>)>,
    m: SongMeta,
) -> bool {
    &&& m.name@ == (match prop_value(props, "name".spec_bytes(), 0) {
        Some(v) => v,
        None => Seq::<char>::empty(),
    })
    &&& m.artist@ == (match prop_value(props, "artist".spec_bytes(), 0) {
        Some(v) => v,
        None => Seq::<char>::empty(),
    })
    &&& m.album@ == (match prop_value(props, "album".spec_bytes(), 0) {
        Some(v) => v,
        None => Seq::<char>::empty(),
    })
    &&& m.year == (match prop_value(props, "year".spec_bytes(), 0) {
        Some(v) => match parse_i32_of(v) {
            Some(y) => y,
            None => 2020,
        },
        None => 2020,
    })
    &&& m.preview_start == (match prop_value(props, "preview_start_time".spec_bytes(), 0) {
        Some(v) => crate::chart_parser::parse_u32_of(encode_utf8(v)),
        None => None::<u32>,
    })
}

impl SongMeta {
    /// Interprets a song's INI text: the first section named `song` (in
    /// any ASCII case) provides the fields, with their defaults.
    ///
    /// Unparsable INI text and a missing song section each fail with
    /// their own error.
    pub fn from_ini_str(text: &str) -> (r: Result<SongMeta, SongMetaError>)
        ensures
            ini_sections_of(text@) is None <==> (r matches Err(e) && e == SongMetaError::NotIni),
            ini_sections_of(text@) matches Some(secs) ==> (song_section_index(secs, 0) < 0 <==> (r
                matches Err(e) && e == SongMetaError::NoSongSection)),
            ini_sections_of(text@) matches Some(secs) ==> (song_section_index(secs, 0) >= 0 ==> (r
                matches Ok(m) && meta_matches(secs[song_section_index(secs, 0)].1, m))),
    {
        let secs = match ini_sections(text) {
            Some(v) => v,
            None => {
                return Err(SongMetaError::NotIni);
            },
        };
        let ghost sv = sec_views(secs@);
        let mut i: usize = 0;
        let mut found: Option<usize> = None;
        while i < secs.len() && found.is_none()
            invariant
                sv == sec_views(secs@),
                sv.len() == secs@.len(),
                0 <= i <= secs@.len(),
                found is None ==> song_section_index(sv, 0) == song_section_index(sv, i as int),
                found matches Some(f) ==> f < secs@.len() && song_section_index(sv, 0)
                    == f as int,
            decreases secs@.len() - i,
        {
            proof {
                assert(sv[i as int] == (
                    match secs@[i as int].0 {
                        Some(s) => Some(s@),
                        None => None::<Seq<char>>,
                    },
                    secs@[i as int].1@.map(|j: int, kv: (String, String)| (kv.0@, kv.1@)),
                ));
            }
            match &secs[i].0 {
                Some(nm) => {
                    if bytes_eq_fold(nm.as_str().as_bytes(), "song".as_bytes()) {
                        found = Some(i);
                    }
                },
                None => {},
            }
            i = i + 1;
        }
        let fi = match found {
            Some(f) => f,
            None => {
                return Err(SongMetaError::NoSongSection);
            },
        };
        let props = &secs[fi].1;
        let ghost pv = sv[fi as int].1;
        proof {
            assert(pv == props@.map(|j: int, kv: (String, String)| (kv.0@, kv.1@)));
        }
        let name = find_prop_or_empty(props, "name");
        let artist = find_prop_or_empty(props, "artist");
        let album = find_prop_or_empty(props, "album");
        let year = match find_prop(props, "year") {
            Some(v) => match parse_i32_str(v.as_str()) {
                Some(y) => y,
                None => 2020,
            },
            None => 2020,
        };
        let preview_start = match find_prop(props, "preview_start_time") {
            Some(v) => parse_u32_str(v.as_str()),
            None => None,
        };
        Ok(SongMeta { name, artist, album, year, preview_start })
    }
}

/// First property value under `key`, copied out.
fn find_prop(props: &Vec<(String, String)>, key: &str) -> (r: Option<String>)
    ensures
        ({
            let pv = props@.map(|j: int, kv: (String, String)| (kv.0@, kv.1@));
            match prop_value(pv, key.spec_bytes(), 0) {
                None => r is None,
                Some(v) => r matches Some(s) && s@ == v,
            }
        }),
{
    let ghost pv = props@.map(|j: int, kv: (String, String)| (kv.0@, kv.1@));
    let mut i: usize = 0;
    while i < props.len()
        invariant
            pv == props@.map(|j: int, kv: (String, String)| (kv.0@, kv.1@)),
            pv.len() == props@.len(),
            0 <= i <= props@.len(),
            prop_value(pv, key.spec_bytes(), 0) == prop_value(pv, key.spec_bytes(), i as int),
        decreases props@.len() - i,
    {
        proof {
            assert(pv[i as int] == (props@[i as int].0@, props@[i as int].1@));
        }
        if crate::chart_parser::bytes_eq(props[i].0.as_str().as_bytes(), key.as_bytes()) {
            return Some(crate::chart::clone_string(&props[i].1));
        }
        i = i + 1;
    }
    None
}

/// First property value under `key`, or the empty string.
fn find_prop_or_empty(props: &Vec<(String, String)>, key: &str) -> (r: String)
    ensures
        ({
            let pv = props@.map(|j: int, kv: (String, String)| (kv.0@, kv.1@));
            r@ == (match prop_value(pv, key.spec_bytes(), 0) {
                Some(v) => v,
                None => Seq::<char>::empty(),
            })
        }),
{
    match find_prop(props, key) {
        Some(s) => s,
        None => String::new(),
    }
}

} // verus!
