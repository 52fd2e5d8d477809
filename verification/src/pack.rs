//! Pack assembly data: the per-song chart source, pack options, the
//! decisions the pack workflow makes, and the data the surrounding
//! command-line and windowed shells carry.

use vstd::prelude::*;

verus! {

use crate::chart::SongChart;
use crate::midi::MidiFile;
use vstd::string::StringExecFns;

/// A song's chart source: chart notation or a MIDI file.
#[derive(Debug)]
pub enum ChartFile {
    Chart(SongChart),
    Midi(MidiFile),
}

impl ChartFile {
    /// Whether the source is a MIDI file.
    pub fn is_midi(&self) -> (r: bool)
        ensures
            r == (self is Midi),
    {
        match self {
            ChartFile::Midi(_) => true,
            _ => false,
        }
    }
}

/// The options a pack build runs under.
#[derive(Debug)]
pub struct PackOptions {
    pub songs_path: String,
    pub output_path: String,
    pub name: Option<String>,
    pub id: u8,
}

/// Why a pack could not be created.
#[derive(Clone, Copy, Debug, PartialEq, Eq, Structural)]
pub enum PackCreateError {
    NoAudioFound,
}

impl PackCreateError {
    /// A readable description of the failure.
    pub fn message(&self) -> (r: String)
        ensures
            r@ == "no ogg audio found"@,
    {
        let mut s = String::new();
        s.append("no ogg audio found");
        s
    }
}

/// Whether a pack id is usable (the target game accepts 4 through 98).
pub fn pack_id_valid(id: u8) -> (r: bool)
    ensures
        r == (4 <= id && id <= 98),
{
    4 <= id && id <= 98
}

/// How many digits the progress counter is padded to for a song count:
/// none for a single song, else the count's width up to three.
pub open spec fn spec_digit_count(song_count: int) -> int {
    if song_count == 1 {
        0
    } else if song_count <= 9 {
        1
    } else if song_count <= 99 {
        2
    } else {
        3
    }
}

/// The progress counter's padding width for a song count.
pub fn digit_count_for(song_count: usize) -> (r: usize)
    requires
        song_count >= 1,
    ensures
        r == spec_digit_count(song_count as int),
{
    if song_count == 1 {
        0
    } else if song_count <= 9 {
        1
    } else if song_count <= 99 {
        2
    } else {
        3
    }
}

/// The command-line arguments of the MIDI-to-document conversion.
#[derive(Debug)]
pub struct Mid2XmlApp {
    pub mid_path: String,
    pub xml_path: String,
}

/// The command-line arguments of the pack build.
#[derive(Debug)]
pub struct PackCreatorApp {
    pub songs_path: String,
    pub output_path: String,
    pub name: Option<String>,
    pub id: u8,
}

impl PackCreatorApp {
    /// The pack options these arguments stand for.
    pub fn to_pack_ops(&self) -> (r: PackOptions)
        ensures
            r.songs_path@ == self.songs_path@,
            r.output_path@ == self.output_path@,
            r.name is Some <==> self.name is Some,
            (self.name matches Some(n) ==> (r.name matches Some(n2) && n2@ == n@)),
            r.id == self.id,
    {
        PackOptions {
            songs_path: crate::chart::clone_string(&self.songs_path),
            output_path: crate::chart::clone_string(&self.output_path),
            name: match &self.name {
                Some(n) => Some(crate::chart::clone_string(n)),
                None => None,
            },
            id: self.id,
        }
    }
}

/// The state of the windowed pack-building shell: its table headers,
/// the pack name and id under edit, and whether the dark style was
/// applied.
#[derive(Debug)]
pub struct PackApp {
    pub headers: Vec<String>,
    pub pack_name: String,
    pub pack_id: u8,
    pub is_dark: bool,
}

impl Default for PackApp {
    /// The shell's initial state: the five table headers, the default
    /// pack name, the lowest usable pack id, light style.
    fn default() -> (r: Self)
        ensures
            r.headers@.len() == 5,
            r.headers@[0]@ == "id"@,
            r.headers@[1]@ == "artist"@,
            r.headers@[2]@ == "title"@,
            r.headers@[3]@ == "progress"@,
            r.headers@[4]@ == "options"@,
            r.pack_name@ == "Custom Song Pack"@,
            r.pack_id == 4,
            r.is_dark == false,
    {
        let mut headers: Vec<String> = Vec::new();
        headers.push(String::from_str("id"));
        headers.push(String::from_str("artist"));
        headers.push(String::from_str("title"));
        headers.push(String::from_str("progress"));
        headers.push(String::from_str("options"));
        PackApp {
            headers,
            pack_name: String::from_str("Custom Song Pack"),
            pack_id: 4,
            is_dark: false,
        }
    }
}

} // verus!
