//! The pack index builder: collects song metadata and produces the
//! master index document's data, with album names deduplicated and
//! ordered.

use vstd::prelude::*;

verus! {

use crate::chart::clone_string;
use crate::meta::SongMeta;
use crate::xml::XmlFile;
use crate::xml::XmlSong;
use crate::xml::XmlTrack;
use vstd::string::StringExecFns;
use vstd::utf8::encode_utf8;

/// Strict lexicographic order on byte runs.
pub open spec fn lex_lt(a: Seq<u8>, b: Seq<u8>) -> bool
    decreases a.len(),
{
    if b.len() == 0 {
        false
    } else if a.len() == 0 {
        true
    } else if a[0] < b[0] {
        true
    } else if a[0] > b[0] {
        false
    } else {
        lex_lt(a.drop_first(), b.drop_first())
    }
}

/// Compares two byte runs lexicographically.
fn bytes_lt(a: &[u8], b: &[u8]) -> (r: bool)
    ensures
        r == lex_lt(a@, b@),
{
    let mut i: usize = 0;
    proof {
        assert(a@.skip(0) =~= a@);
        assert(b@.skip(0) =~= b@);
    }
    while i < a.len() && i < b.len()
        invariant
            0 <= i,
            i <= a@.len(),
            i <= b@.len(),
            lex_lt(a@, b@) == lex_lt(a@.skip(i as int), b@.skip(i as int)),
        decreases a@.len() - i,
    {
        proof {
            assert(a@.skip(i as int).drop_first() =~= a@.skip(i as int + 1));
            assert(b@.skip(i as int).drop_first() =~= b@.skip(i as int + 1));
        }
        if a[i] < b[i] {
            return true;
        }
        if a[i] > b[i] {
            return false;
        }
        i = i + 1;
    }
    proof {
        if i >= b@.len() {
            assert(b@.skip(i as int).len() == 0);
        } else {
            assert(a@.skip(i as int).len() == 0);
            assert(b@.skip(i as int).len() > 0);
        }
    }
    i >= a.len() && i < b.len()
}

/// Album names in strictly ascending byte order (hence distinct).
pub open spec fn albums_sorted(albums: Seq<String>) -> bool {
    forall|i: int, j: int|
        0 <= i < j < albums.len() ==> lex_lt(
            encode_utf8(#[trigger] albums[i]@),
            encode_utf8(#[trigger] albums[j]@),
        )
}

/// Whether some album in the list encodes like `x`.
pub open spec fn has_album(albums: Seq<String>, x: Seq<u8>) -> bool {
    exists|i: int| 0 <= i < albums.len() && encode_utf8(#[trigger] albums[i]@) == x
}

/// First album index encoding like `x`, or -1.
pub open spec fn album_index_of(albums: Seq<String>, x: Seq<u8>, i: int) -> int
    decreases albums.len() - i,
{
    if i < 0 || i >= albums.len() {
        -1
    } else if encode_utf8(albums[i]@) == x {
        i
    } else {
        album_index_of(albums, x, i + 1)
    }
}

/// Strict order is irreflexive and total on distinct runs.
proof fn lemma_lex_lt_props(a: Seq<u8>, b: Seq<u8>)
    ensures
        !(lex_lt(a, b) && lex_lt(b, a)),
        !lex_lt(a, b) && !lex_lt(b, a) ==> a =~= b,
    decreases a.len(),
{
    if b.len() == 0 || a.len() == 0 {
    } else if a[0] == b[0] {
        lemma_lex_lt_props(a.drop_first(), b.drop_first());
        assert(lex_lt(a, b) == lex_lt(a.drop_first(), b.drop_first()));
        assert(lex_lt(b, a) == lex_lt(b.drop_first(), a.drop_first()));
        if !lex_lt(a, b) && !lex_lt(b, a) {
            assert(a.drop_first() =~= b.drop_first());
            assert(a.len() == b.len());
            assert forall|k: int| 0 <= k < a.len() implies a[k] == b[k] by {
                if k > 0 {
                    assert(a.drop_first()[k - 1] == b.drop_first()[k - 1]);
                }
            }
            assert(a =~= b);
        }
    }
}

/// Inserts an album name into the ordered, distinct list, keeping it
/// ordered and distinct; a name already present (by encoding) leaves the
/// list as it is.
fn insert_album(v: &mut Vec<String>, s: String)
    requires
        albums_sorted(old(v)@),
    ensures
        albums_sorted(final(v)@),
        has_album(old(v)@, encode_utf8(s@)) ==> final(v)@ == old(v)@,
        !has_album(old(v)@, encode_utf8(s@)) ==> ({
            exists|p: int|
                0 <= p <= old(v)@.len() && final(v)@ =~= old(v)@.insert(p, s)
        }),
        forall|x: Seq<u8>| has_album(final(v)@, x) <==> has_album(old(v)@, x) || x == encode_utf8(s@),
{
    let ghost pre = v@;
    let sb = crate::chart_parser::slice_to_vec_u8(s.as_str().as_bytes());
    let mut i: usize = 0;
    while i < v.len() && bytes_lt(v[i].as_str().as_bytes(), sb.as_slice())
        invariant
            v@ == pre,
            albums_sorted(pre),
            sb@ == encode_utf8(s@),
            0 <= i <= pre.len(),
            forall|k: int| 0 <= k < i ==> lex_lt(encode_utf8(#[trigger] pre[k]@), encode_utf8(s@)),
        decreases pre.len() - i,
    {
        i = i + 1;
    }
    if i < v.len() && crate::chart_parser::bytes_eq(v[i].as_str().as_bytes(), sb.as_slice()) {
        proof {
            assert(has_album(pre, encode_utf8(s@)));
            assert forall|x: Seq<u8>| has_album(v@, x) <==> has_album(pre, x) || x == encode_utf8(
                s@,
            ) by {}
        }
        return ;
    }
    proof {
        // everything from position i on sorts strictly after the new name
        assert forall|k: int| i <= k < pre.len() implies lex_lt(
            encode_utf8(s@),
            encode_utf8(#[trigger] pre[k]@),
        ) by {
            lemma_lex_lt_props(encode_utf8(pre[k]@), encode_utf8(s@));
            if k > i {
                assert(lex_lt(encode_utf8(pre[i as int]@), encode_utf8(pre[k]@)));
                if !lex_lt(encode_utf8(s@), encode_utf8(pre[k]@)) {
                    lemma_lex_lt_props(encode_utf8(pre[k]@), encode_utf8(s@));
                    assert(encode_utf8(pre[k]@) =~= encode_utf8(s@)
                        || lex_lt(encode_utf8(pre[k]@), encode_utf8(s@)));
                    if encode_utf8(pre[k]@) =~= encode_utf8(s@) {
                        assert(lex_lt(encode_utf8(pre[i as int]@), encode_utf8(s@)));
                        lemma_lex_lt_props(encode_utf8(pre[i as int]@), encode_utf8(s@));
                    } else {
                        lemma_lex_trans(
                            encode_utf8(pre[i as int]@),
                            encode_utf8(pre[k]@),
                            encode_utf8(s@),
                        );
                        lemma_lex_lt_props(encode_utf8(pre[i as int]@), encode_utf8(s@));
                    }
                }
            } else {
                if !lex_lt(encode_utf8(s@), encode_utf8(pre[k]@)) {
                    assert(encode_utf8(pre[k]@) =~= encode_utf8(s@));
                }
            }
        }
        assert(!has_album(pre, encode_utf8(s@))) by {
            if has_album(pre, encode_utf8(s@)) {
                let m = choose|m: int|
                    0 <= m < pre.len() && encode_utf8(#[trigger] pre[m]@) == encode_utf8(s@);
                lemma_lex_lt_props(encode_utf8(pre[m]@), encode_utf8(s@));
            }
        }
    }
    let ghost sv = s@;
    v.insert(i, s);
    proof {
        assert(v@ =~= pre.insert(i as int, s));
        assert forall|a: int, b: int| 0 <= a < b < v@.len() implies lex_lt(
            encode_utf8(#[trigger] v@[a]@),
            encode_utf8(#[trigger] v@[b]@),
        ) by {
            if a < i && b > i {
                lemma_lex_trans(encode_utf8(v@[a]@), encode_utf8(sv), encode_utf8(v@[b]@));
            }
        }
        assert forall|x: Seq<u8>| has_album(v@, x) <==> has_album(pre, x) || x == encode_utf8(
            sv,
        ) by {
            if has_album(v@, x) {
                let m = choose|m: int|
                    0 <= m < v@.len() && encode_utf8(#[trigger] v@[m]@) == x;
                if m < i {
                    assert(encode_utf8(pre[m]@) == x);
                } else if m > i {
                    assert(encode_utf8(pre[m - 1]@) == x);
                }
            }
            if has_album(pre, x) {
                let m = choose|m: int|
                    0 <= m < pre.len() && encode_utf8(#[trigger] pre[m]@) == x;
                if m < i {
                    assert(encode_utf8(v@[m]@) == x);
                } else {
                    assert(encode_utf8(v@[m + 1]@) == x);
                }
            }
            if x == encode_utf8(sv) {
                assert(encode_utf8(v@[i as int]@) == x);
            }
        }
    }
}

/// Strict lexicographic order is transitive.
proof fn lemma_lex_trans(a: Seq<u8>, b: Seq<u8>, c: Seq<u8>)
    requires
        lex_lt(a, b),
        lex_lt(b, c),
    ensures
        lex_lt(a, c),
    decreases a.len(),
{
    if a.len() > 0 && b.len() > 0 && c.len() > 0 {
        if a[0] == b[0] && b[0] == c[0] {
            lemma_lex_trans(a.drop_first(), b.drop_first(), c.drop_first());
        }
    }
}

/// Collects song metadata and ids, then builds the master index data.
pub struct XmlSongMetaBuilder {
    pub pack_name: String,
    pub pack_id: u8,
    pub song_metas: Vec<(SongMeta, u16)>,
}

/// A copy of a song's metadata, field for field.
fn clone_meta(m: &SongMeta) -> (r: SongMeta)
    ensures
        r.name@ == m.name@,
        r.artist@ == m.artist@,
        r.album@ == m.album@,
        r.year == m.year,
        r.preview_start == m.preview_start,
{
    SongMeta {
        name: clone_string(&m.name),
        artist: clone_string(&m.artist),
        album: clone_string(&m.album),
        year: m.year,
        preview_start: m.preview_start,
    }
}

impl XmlSongMetaBuilder {
    /// An empty builder for a pack with the given name and id.
    pub fn new(name: &str, pack_id: u8) -> (r: XmlSongMetaBuilder)
        ensures
            r.pack_name@ == name@,
            r.pack_id == pack_id,
            r.song_metas@.len() == 0,
    {
        let mut pack_name = String::new();
        pack_name.append(name);
        XmlSongMetaBuilder { pack_name, pack_id, song_metas: Vec::new() }
    }

    /// Records one song's metadata under its id (ids are taken to be
    /// unique).
    pub fn add_song(&mut self, song_meta: &SongMeta, id: u16)
        ensures
            final(self).pack_name == old(self).pack_name,
            final(self).pack_id == old(self).pack_id,
            final(self).song_metas@.len() == old(self).song_metas@.len() + 1,
            final(self).song_metas@.take(old(self).song_metas@.len() as int) =~= old(
                self,
            ).song_metas@,
            final(self).song_metas@.last().1 == id,
            final(self).song_metas@.last().0.name@ == song_meta.name@,
            final(self).song_metas@.last().0.artist@ == song_meta.artist@,
            final(self).song_metas@.last().0.album@ == song_meta.album@,
    {
        self.song_metas.push((clone_meta(song_meta), id));
    }

    /// Builds the master index data: the distinct album names in byte
    /// order, and one entry per recorded song carrying its id, artist,
    /// title and the index its artist matches among the album names
    /// (0 where none does).
    pub fn to_xml_meta(&self) -> (r: XmlFile)
        ensures
            r.track matches XmlTrack::Metadata { name, pack_id, albums, songs } && {
                &&& name@ == self.pack_name@
                &&& pack_id == self.pack_id
                &&& albums_sorted(albums@)
                &&& forall|x: Seq<u8>|
                    has_album(albums@, x) <==> exists|k: int|
                        0 <= k < self.song_metas@.len() && encode_utf8(
                            (#[trigger] self.song_metas@[k]).0.album@,
                        ) == x
                &&& songs@.len() == self.song_metas@.len()
                &&& forall|k: int|
                    0 <= k < songs@.len() ==> {
                        let (m, id) = #[trigger] self.song_metas@[k];
                        &&& songs@[k].song_id == id
                        &&& songs@[k].artist@ == m.artist@
                        &&& songs@[k].title@ == m.name@
                        &&& songs@[k].album_idx == (if album_index_of(
                            albums@,
                            encode_utf8(m.artist@),
                            0,
                        ) >= 0 && album_index_of(albums@, encode_utf8(m.artist@), 0)
                            <= u16::MAX {
                            album_index_of(albums@, encode_utf8(m.artist@), 0)
                        } else {
                            0
                        })
                    }
            },
    {
        // the distinct album names, ordered
        let mut albums: Vec<String> = Vec::new();
        let mut i: usize = 0;
        while i < self.song_metas.len()
            invariant
                0 <= i <= self.song_metas@.len(),
                albums_sorted(albums@),
                forall|x: Seq<u8>|
                    has_album(albums@, x) <==> exists|k: int|
                        0 <= k < i && encode_utf8((#[trigger] self.song_metas@[k]).0.album@) == x,
            decreases self.song_metas@.len() - i,
        {
            let a = clone_string(&self.song_metas[i].0.album);
            insert_album(&mut albums, a);
            proof {
                assert forall|x: Seq<u8>|
                    has_album(albums@, x) <==> exists|k: int|
                        0 <= k < i + 1 && encode_utf8((#[trigger] self.song_metas@[k]).0.album@)
                            == x by {
                    if has_album(albums@, x) {
                        if x == encode_utf8(self.song_metas@[i as int].0.album@) {
                            assert(encode_utf8((self.song_metas@[i as int]).0.album@) == x);
                        }
                    }
                    if exists|k: int|
                        0 <= k < i + 1 && encode_utf8((#[trigger] self.song_metas@[k]).0.album@)
                            == x {
                        let k = choose|k: int|
                            0 <= k < i + 1 && encode_utf8(
                                (#[trigger] self.song_metas@[k]).0.album@,
                            ) == x;
                        if k < i {
                            assert(exists|k2: int|
                                0 <= k2 < i && encode_utf8(
                                    (#[trigger] self.song_metas@[k2]).0.album@,
                                ) == x);
                        }
                    }
                }
            }
            i = i + 1;
        }

        // the song entries
        let mut songs: Vec<XmlSong> = Vec::new();
        let mut j: usize = 0;
        while j < self.song_metas.len()
            invariant
                0 <= j <= self.song_metas@.len(),
                songs@.len() == j,
                forall|k: int|
                    0 <= k < j ==> {
                        let (m, id) = #[trigger] self.song_metas@[k];
                        &&& songs@[k].song_id == id
                        &&& songs@[k].artist@ == m.artist@
                        &&& songs@[k].title@ == m.name@
                        &&& songs@[k].album_idx == (if album_index_of(
                            albums@,
                            encode_utf8(m.artist@),
                            0,
                        ) >= 0 && album_index_of(albums@, encode_utf8(m.artist@), 0)
                            <= u16::MAX {
                            album_index_of(albums@, encode_utf8(m.artist@), 0)
                        } else {
                            0
                        })
                    },
            decreases self.song_metas@.len() - j,
        {
            let (m, id) = &self.song_metas[j];
            let album_idx = find_album_index(&albums, &m.artist);
            songs.push(
                XmlSong {
                    song_id: *id,
                    artist: clone_string(&m.artist),
                    title: clone_string(&m.name),
                    album_idx,
                },
            );
            j = j + 1;
        }

        XmlFile {
            track: XmlTrack::Metadata {
                name: clone_string(&self.pack_name),
                pack_id: self.pack_id,
                albums,
                songs,
            },
        }
    }
}

/// The index the given name holds among the albums, or 0 where none
/// matches or the index exceeds the id range.
fn find_album_index(albums: &Vec<String>, name: &String) -> (r: u16)
    ensures
        r == (if album_index_of(albums@, encode_utf8(name@), 0) >= 0 && album_index_of(
            albums@,
            encode_utf8(name@),
            0,
        ) <= u16::MAX {
            album_index_of(albums@, encode_utf8(name@), 0)
        } else {
            0
        }),
{
    let mut i: usize = 0;
    while i < albums.len()
        invariant
            0 <= i <= albums@.len(),
            album_index_of(albums@, encode_utf8(name@), 0) == album_index_of(
                albums@,
                encode_utf8(name@),
                i as int,
            ),
        decreases albums@.len() - i,
    {
        if crate::chart_parser::bytes_eq(
            albums[i].as_str().as_bytes(),
            name.as_str().as_bytes(),
        ) {
            if i <= u16::MAX as usize {
                return i as u16;
            } else {
                return 0;
            }
        }
        i = i + 1;
    }
    0
}

} // verus!
