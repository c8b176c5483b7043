//! The document that describes a whole device: its collection of tracks
//! and its playlist tree.

use std::collections::HashSet;
use vstd::prelude::*;
use crate::convert::{
    exported, keep_known_keys, keys_within, lemma_exported_keys_known,
    lemma_pruned_converted_is_exported, pdb_node_to_xml, u32_to_i32, wrap_i32,
};
use crate::document::{Collection, Document, PlaylistFolderNode, PlaylistGenericNode, Playlists, Product, Track};
use crate::location::{location_uri, make_location_uri};
use crate::pdb::{Pdb, PdbTrack};

verus! {

broadcast use vstd::std_specs::hash::group_hash_axioms;

/// No later row of `tracks` has the ID of row `i`: of all rows with that ID,
/// row `i` is the one that counts.
pub open spec fn is_last_of_id(tracks: Seq<PdbTrack>, i: int) -> bool {
    forall|j: int| i < j < tracks.len() ==> #[trigger] tracks[j].id != tracks[i].id
}

/// Row `i` goes into the collection: it is the last row with its ID, and its
/// title and file path decode.
pub open spec fn in_collection(tracks: Seq<PdbTrack>, i: int) -> bool {
    &&& is_last_of_id(tracks, i)
    &&& tracks[i].title is Some
    &&& tracks[i].file_path is Some
}

/// The rows among the first `n` of `tracks` that go into the collection, in
/// table order.
pub open spec fn collection_rows(tracks: Seq<PdbTrack>, n: int) -> Seq<int>
    decreases n,
{
    if n <= 0 {
        seq![]
    } else if in_collection(tracks, n - 1) {
        collection_rows(tracks, n - 1).push(n - 1)
    } else {
        collection_rows(tracks, n - 1)
    }
}

/// A string of the database as an XML attribute: kept where it decodes and
/// is not empty.
pub open spec fn non_empty(s: Option<String>) -> Option<String> {
    match s {
        Some(v) => if v@.len() > 0 {
            Some(v)
        } else {
            None
        },
        None => None,
    }
}

/// The XML rating for a number of stars: 0, 51, 102, 153, 204 or 255 for
/// zero to five stars; a value above five is written as it is.
pub open spec fn xml_rating(stars: u8) -> Option<i32> {
    if stars <= 5 {
        Some((51 * stars) as i32)
    } else {
        Some(stars as i32)
    }
}

/// The XML rating for a number of stars.
pub fn rating_value(stars: u8) -> (r: Option<i32>)
    ensures
        r == xml_rating(stars),
{
    if stars <= 5 {
        Some(51 * (stars as i32))
    } else {
        Some(stars as i32)
    }
}

/// `x` is the collection track for the database row `t`, whose file lies
/// under the directory `base`.
pub open spec fn track_from(t: PdbTrack, x: Track, base: Seq<char>) -> bool {
    &&& x.trackid == wrap_i32(t.id)
    &&& x.name == t.title
    &&& x.artist is None
    &&& x.composer is None
    &&& x.album is None
    &&& x.grouping is None
    &&& x.genre is None
    &&& x.kind is None
    &&& x.size == Some(t.file_size as i64)
    &&& x.totaltime == Some(t.duration as u32)
    &&& x.discnumber == Some(t.disc_number as i32)
    &&& x.tracknumber == Some(wrap_i32(t.track_number))
    &&& x.year == Some(t.year as i32)
    &&& x.averagebpm == (if t.tempo > 0 { Some(t.tempo) } else { None::<u32> })
    &&& x.datemodified is None
    &&& x.dateadded == non_empty(t.date_added)
    &&& x.bitrate == Some(wrap_i32(t.bitrate))
    &&& x.samplerate == Some(t.sample_rate)
    &&& x.comments == non_empty(t.comment)
    &&& x.playcount == Some(t.play_count as i32)
    &&& x.lastplayed is None
    &&& x.rating == xml_rating(t.rating)
    &&& t.file_path matches Some(p) && x.location@ == location_uri(base, p@)
    &&& x.remixer is None
    &&& x.tonality is None
    &&& x.label is None
    &&& x.mix == non_empty(t.mix_name)
    &&& x.colour is None
}

/// What each attribute of a collection track is, read off the database row:
/// the comment goes to `Comments` and the mix name to `Mix` (each only when
/// it is not empty), the play count to `PlayCount`, the stars to `Rating` on
/// the 0 to 255 scale, and the 32-bit IDs and numbers keep their bits.
pub proof fn lemma_track_attributes(t: PdbTrack, x: Track, base: Seq<char>)
    requires
        track_from(t, x, base),
    ensures
        x.trackid as int == (if t.id <= 0x7fff_ffff {
            t.id as int
        } else {
            t.id - 0x1_0000_0000
        }),
        x.name == t.title,
        x.artist is None && x.composer is None && x.album is None && x.grouping is None,
        x.genre is None && x.kind is None && x.datemodified is None && x.lastplayed is None,
        x.remixer is None && x.tonality is None && x.label is None && x.colour is None,
        x.size == Some(t.file_size as i64),
        x.totaltime == Some(t.duration as u32),
        x.discnumber == Some(t.disc_number as i32),
        x.tracknumber matches Some(n) && n as int == (if t.track_number <= 0x7fff_ffff {
            t.track_number as int
        } else {
            t.track_number - 0x1_0000_0000
        }),
        x.year == Some(t.year as i32),
        x.averagebpm == (if t.tempo > 0 { Some(t.tempo) } else { None::<u32> }),
        x.dateadded == (if t.date_added is Some && t.date_added->0@.len() > 0 {
            t.date_added
        } else {
            None::<String>
        }),
        x.bitrate matches Some(b) && b as int == (if t.bitrate <= 0x7fff_ffff {
            t.bitrate as int
        } else {
            t.bitrate - 0x1_0000_0000
        }),
        x.samplerate == Some(t.sample_rate),
        x.comments == (if t.comment is Some && t.comment->0@.len() > 0 {
            t.comment
        } else {
            None::<String>
        }),
        x.playcount == Some(t.play_count as i32),
        x.rating matches Some(r) && r as int == (if t.rating <= 5 {
            51 * t.rating
        } else {
            t.rating as int
        }),
        x.mix == (if t.mix_name is Some && t.mix_name->0@.len() > 0 {
            t.mix_name
        } else {
            None::<String>
        }),
        t.file_path is Some && x.location@ == location_uri(base, t.file_path->0@),
{
}

/// The track IDs of the collection.
pub open spec fn collection_keys(tracks: Seq<Track>) -> Set<i32> {
    Set::new(|k: i32| exists|i: int| 0 <= i < tracks.len() && #[trigger] tracks[i].trackid == k)
}

fn track_ids(tracks: &Vec<Track>) -> (ids: HashSet<i32>)
    ensures
        ids@ == collection_keys(tracks@),
{
    let mut ids: HashSet<i32> = HashSet::new();
    for i in 0..tracks.len()
        invariant
            forall|k: i32|
                #[trigger] ids@.contains(k) <==> exists|j: int|
                    0 <= j < i && #[trigger] tracks@[j].trackid == k,
    {
        let k = tracks[i].trackid;
        ids.insert(k);
        assert forall|x: i32| #[trigger] ids@.contains(x) <==> exists|j: int|
            0 <= j < i + 1 && #[trigger] tracks@[j].trackid == x by {
            if x == k {
                assert(tracks@[i as int].trackid == x);
            }
        }
    }
    assert(ids@ =~= collection_keys(tracks@));
    ids
}

/// The `i32` that a count of `n` items is written as (the low 32 bits of `n`).
pub open spec fn count_as_i32(n: nat) -> i32 {
    wrap_i32((n % 0x1_0000_0000) as u32)
}

fn non_empty_string(s: &Option<String>) -> (r: Option<String>)
    ensures
        r == non_empty(*s),
{
    match s {
        Some(v) => if v.as_str().is_empty() {
            None
        } else {
            Some(v.clone())
        },
        None => None,
    }
}

/// The collection track for a database row, or `None` where the row's title
/// or file path does not decode.
pub fn xml_track(t: &PdbTrack, base_path: &str) -> (x: Option<Track>)
    ensures
        x is Some <==> (t.title is Some && t.file_path is Some),
        x matches Some(x) ==> track_from(*t, x, base_path@),
        x matches Some(x) ==> {
            &&& x.trackid as int == (if t.id <= 0x7fff_ffff {
                t.id as int
            } else {
                t.id - 0x1_0000_0000
            })
            &&& x.name == t.title
            &&& x.artist is None && x.composer is None && x.album is None && x.grouping is None
            &&& x.genre is None && x.kind is None && x.datemodified is None && x.lastplayed is None
            &&& x.remixer is None && x.tonality is None && x.label is None && x.colour is None
            &&& x.size == Some(t.file_size as i64)
            &&& x.totaltime == Some(t.duration as u32)
            &&& x.discnumber == Some(t.disc_number as i32)
            &&& x.tracknumber matches Some(n) && n as int == (if t.track_number <= 0x7fff_ffff {
                t.track_number as int
            } else {
                t.track_number - 0x1_0000_0000
            })
            &&& x.year == Some(t.year as i32)
            &&& x.averagebpm == (if t.tempo > 0 { Some(t.tempo) } else { None::<u32> })
            &&& x.dateadded == (if t.date_added is Some && t.date_added->0@.len() > 0 {
                t.date_added
            } else {
                None::<String>
            })
            &&& x.bitrate matches Some(b) && b as int == (if t.bitrate <= 0x7fff_ffff {
                t.bitrate as int
            } else {
                t.bitrate - 0x1_0000_0000
            })
            &&& x.samplerate == Some(t.sample_rate)
            &&& x.comments == (if t.comment is Some && t.comment->0@.len() > 0 {
                t.comment
            } else {
                None::<String>
            })
            &&& x.playcount == Some(t.play_count as i32)
            &&& x.rating matches Some(r) && r as int == (if t.rating <= 5 {
                51 * t.rating
            } else {
                t.rating as int
            })
            &&& x.mix == (if t.mix_name is Some && t.mix_name->0@.len() > 0 {
                t.mix_name
            } else {
                None::<String>
            })
            &&& t.file_path is Some && x.location@ == location_uri(base_path@, t.file_path->0@)
        },
{
    let file_path = match &t.file_path {
        Some(p) => p,
        None => return None,
    };
    let title = match &t.title {
        Some(n) => n.clone(),
        None => return None,
    };
    let location = make_location_uri(base_path, file_path.as_str());
    Some(
        Track {
            trackid: u32_to_i32(t.id),
            name: Some(title),
            artist: None,
            composer: None,
            album: None,
            grouping: None,
            genre: None,
            kind: None,
            size: Some(t.file_size as i64),
            totaltime: Some(t.duration as u32),
            discnumber: Some(t.disc_number as i32),
            tracknumber: Some(u32_to_i32(t.track_number)),
            year: Some(t.year as i32),
            averagebpm: if t.tempo > 0 {
                Some(t.tempo)
            } else {
                None
            },
            datemodified: None,
            dateadded: non_empty_string(&t.date_added),
            bitrate: Some(u32_to_i32(t.bitrate)),
            samplerate: Some(t.sample_rate),
            comments: non_empty_string(&t.comment),
            playcount: Some(t.play_count as i32),
            lastplayed: None,
            rating: rating_value(t.rating),
            location,
            remixer: None,
            tonality: None,
            label: None,
            mix: non_empty_string(&t.mix_name),
            colour: None,
        },
    )
}

/// For each row, in reverse table order, whether it is the last row with its
/// ID: `last[k]` tells of row `tracks.len() - 1 - k`.
fn last_of_id_flags(tracks: &Vec<PdbTrack>) -> (last: Vec<bool>)
    ensures
        last@.len() == tracks@.len(),
        forall|i: int|
            0 <= i < tracks@.len() ==> #[trigger] last@[tracks@.len() - 1 - i]
                == is_last_of_id(tracks@, i),
{
    let n = tracks.len();
    let mut seen: HashSet<u32> = HashSet::new();
    let mut last: Vec<bool> = Vec::new();
    let mut i = n;
    while i > 0
        invariant
            i <= n == tracks@.len(),
            last@.len() == n - i,
            forall|id: u32|
                #[trigger] seen@.contains(id) <==> exists|j: int|
                    i <= j < n && #[trigger] tracks@[j].id == id,
            forall|k: int|
                i <= k < n ==> #[trigger] last@[n - 1 - k] == is_last_of_id(tracks@, k),
        decreases i,
    {
        i = i - 1;
        let id = tracks[i].id;
        let fresh = !seen.contains(&id);
        assert(fresh == is_last_of_id(tracks@, i as int)) by {
            if !fresh {
                let j = choose|j: int| i + 1 <= j < n && #[trigger] tracks@[j].id == id;
                assert(tracks@[j].id == tracks@[i as int].id);
            }
        }
        last.push(fresh);
        seen.insert(id);
        assert forall|x: u32| #[trigger] seen@.contains(x) <==> exists|j: int|
            i <= j < n && #[trigger] tracks@[j].id == x by {
            if x == id {
                assert(tracks@[i as int].id == x);
            }
        }
    }
    last
}

/// The tracks of the collection: for each track ID the last row with that
/// ID, in table order, left out where its title or file path does not decode.
pub fn collection_tracks(tracks: &Vec<PdbTrack>, base_path: &str) -> (xml: Vec<Track>)
    ensures
        xml@.len() == collection_rows(tracks@, tracks@.len() as int).len(),
        forall|i: int|
            0 <= i < xml@.len() ==> track_from(
                tracks@[collection_rows(tracks@, tracks@.len() as int)[i]],
                #[trigger] xml@[i],
                base_path@,
            ),
        forall|i: int|
            0 <= i < tracks@.len() && (forall|j: int|
                i < j < tracks@.len() ==> tracks@[j].id != tracks@[i].id) && tracks@[i].title is Some
                && tracks@[i].file_path is Some ==> exists|k: int|
                0 <= k < xml@.len() && xml@[k].name == #[trigger] tracks@[i].title
                    && xml@[k].trackid as int == (if tracks@[i].id <= 0x7fff_ffff {
                    tracks@[i].id as int
                } else {
                    tracks@[i].id - 0x1_0000_0000
                }),
{
    let last = last_of_id_flags(tracks);
    let n = tracks.len();
    let mut xml: Vec<Track> = Vec::new();
    for i in 0..n
        invariant
            n == tracks@.len(),
            last@.len() == n,
            forall|k: int|
                0 <= k < n ==> #[trigger] last@[n - 1 - k] == is_last_of_id(tracks@, k),
            xml@.len() == collection_rows(tracks@, i as int).len(),
            forall|j: int|
                0 <= j < xml@.len() ==> track_from(
                    tracks@[collection_rows(tracks@, i as int)[j]],
                    #[trigger] xml@[j],
                    base_path@,
                ),
    {
        assert(last@[n - 1 - i] == is_last_of_id(tracks@, i as int));
        if last[n - 1 - i] {
            match xml_track(&tracks[i], base_path) {
                Some(t) => {
                    xml.push(t);
                },
                None => {},
            }
        }
    }
    proof {
        let rows = collection_rows(tracks@, n as int);
        lemma_collection_membership(tracks@);
        assert forall|i: int|
            0 <= i < tracks@.len() && (forall|j: int|
                i < j < tracks@.len() ==> tracks@[j].id != tracks@[i].id) && tracks@[i].title is Some
                && tracks@[i].file_path is Some implies exists|k: int|
                0 <= k < xml@.len() && xml@[k].name == #[trigger] tracks@[i].title
                    && xml@[k].trackid as int == (if tracks@[i].id <= 0x7fff_ffff {
                    tracks@[i].id as int
                } else {
                    tracks@[i].id - 0x1_0000_0000
                }) by {
            assert(rows.contains(i));
            let k = choose|k: int| 0 <= k < rows.len() && rows[k] == i;
            assert(track_from(tracks@[rows[k]], xml@[k], base_path@));
        }
    }
    xml
}

/// The rekordbox XML document for a device database whose files lie under
/// the directory `base_path` (a Windows path such as
/// `O:\PIONEER\ESD USB N Drive`): format version `1.0.0`, written by
/// rekordbox `6.0.0` of AlphaTheta, with the collection of `collection_tracks`
/// and a root folder `ROOT` holding the converted playlist tree, whose
/// playlists keep only the tracks that the collection holds.
pub fn document_from_pdb(pdb: &Pdb, base_path: &str) -> (doc: Document)
    ensures
        doc.version@ == "1.0.0"@,
        doc.product.name@ == "rekordbox"@,
        doc.product.version@ == "6.0.0"@,
        doc.product.company@ == "AlphaTheta"@,
        doc.collection.entries == count_as_i32(doc.collection.track@.len()),
        doc.collection.track@.len() <= i32::MAX ==> doc.collection.entries
            == doc.collection.track@.len(),
        doc.collection.track@.len() == collection_rows(pdb.tracks@, pdb.tracks@.len() as int).len(),
        forall|i: int|
            0 <= i < doc.collection.track@.len() ==> track_from(
                pdb.tracks@[collection_rows(pdb.tracks@, pdb.tracks@.len() as int)[i]],
                #[trigger] doc.collection.track@[i],
                base_path@,
            ),
        doc.playlists.node.name@ == "ROOT"@,
        doc.playlists.node.nodes@.len() == pdb.playlists@.len(),
        forall|i: int|
            0 <= i < pdb.playlists@.len() ==> exported(
                #[trigger] pdb.playlists@[i],
                doc.playlists.node.nodes@[i],
                pdb.playlist_entries@,
                collection_keys(doc.collection.track@),
            ),
        forall|i: int|
            0 <= i < doc.playlists.node.nodes@.len() ==> keys_within(
                #[trigger] doc.playlists.node.nodes@[i],
                collection_keys(doc.collection.track@),
            ),
{
    let track = collection_tracks(&pdb.tracks, base_path);
    let low = (track.len() as u64 % 0x1_0000_0000u64) as u32;
    let entries = u32_to_i32(low);
    proof {
        if track@.len() <= i32::MAX {
            lemma_count_as_i32_small(track@.len());
        }
    }
    let known = track_ids(&track);
    let mut nodes: Vec<PlaylistGenericNode> = Vec::new();
    for i in 0..pdb.playlists.len()
        invariant
            nodes@.len() == i,
            forall|j: int|
                0 <= j < i ==> exported(
                    #[trigger] pdb.playlists@[j],
                    nodes@[j],
                    pdb.playlist_entries@,
                    known@,
                ),
            forall|j: int| 0 <= j < i ==> keys_within(#[trigger] nodes@[j], known@),
    {
        let converted_node = pdb_node_to_xml(&pdb.playlists[i], pdb);
        let node = keep_known_keys(&converted_node, &known);
        proof {
            lemma_pruned_converted_is_exported(
                pdb.playlists@[i as int],
                converted_node,
                node,
                pdb.playlist_entries@,
                known@,
            );
            lemma_exported_keys_known(pdb.playlists@[i as int], node, pdb.playlist_entries@, known@);
        }
        nodes.push(node);
    }
    Document {
        version: String::from_str("1.0.0"),
        product: Product {
            name: String::from_str("rekordbox"),
            version: String::from_str("6.0.0"),
            company: String::from_str("AlphaTheta"),
        },
        collection: Collection { entries, track },
        playlists: Playlists {
            node: PlaylistFolderNode { name: String::from_str("ROOT"), nodes },
        },
    }
}

proof fn lemma_collection_rows(tracks: Seq<PdbTrack>, n: int)
    ensures
        forall|a: int, b: int|
            0 <= a < b < collection_rows(tracks, n).len() ==> #[trigger] collection_rows(tracks, n)[a]
                < #[trigger] collection_rows(tracks, n)[b],
        forall|a: int|
            0 <= a < collection_rows(tracks, n).len() ==> 0 <= #[trigger] collection_rows(
                tracks,
                n,
            )[a] < n && in_collection(tracks, collection_rows(tracks, n)[a]),
        forall|i: int|
            0 <= i < n && in_collection(tracks, i) ==> #[trigger] collection_rows(
                tracks,
                n,
            ).contains(i),
    decreases n,
{
    if n > 0 {
        lemma_collection_rows(tracks, n - 1);
        let prev = collection_rows(tracks, n - 1);
        if in_collection(tracks, n - 1) {
            assert(collection_rows(tracks, n)[prev.len() as int] == n - 1);
            assert forall|a: int| 0 <= a < prev.len() implies #[trigger] collection_rows(tracks, n)[a]
                == prev[a] by {}
            assert forall|i: int| 0 <= i < n && in_collection(tracks, i) implies #[trigger] collection_rows(
                tracks,
                n,
            ).contains(i) by {
                if i < n - 1 {
                    assert(prev.contains(i));
                    let k = choose|k: int| 0 <= k < prev.len() && prev[k] == i;
                    assert(collection_rows(tracks, n)[k] == i);
                } else {
                    assert(collection_rows(tracks, n)[prev.len() as int] == i);
                }
            }
        }
    }
}

/// The wrapping conversion to `i32` loses no information: distinct `u32`
/// values stay distinct.
pub proof fn lemma_wrap_i32_injective(x: u32, y: u32)
    ensures
        wrap_i32(x) == wrap_i32(y) ==> x == y,
{
}

/// The collection holds every track ID at most once, and holds a track for
/// each row that is the last with its ID and whose title and file path decode:
/// exactly those rows, in table order.
pub proof fn lemma_collection_ids_unique(tracks: Seq<PdbTrack>)
    ensures
        forall|a: int, b: int|
            0 <= a < b < collection_rows(tracks, tracks.len() as int).len() ==> wrap_i32(
                tracks[#[trigger] collection_rows(tracks, tracks.len() as int)[a]].id,
            ) != wrap_i32(tracks[#[trigger] collection_rows(tracks, tracks.len() as int)[b]].id),
        forall|i: int|
            0 <= i < tracks.len() ==> (in_collection(tracks, i) <==> #[trigger] collection_rows(
                tracks,
                tracks.len() as int,
            ).contains(i)),
{
    let n = tracks.len() as int;
    let rows = collection_rows(tracks, n);
    lemma_collection_rows(tracks, n);
    assert forall|a: int, b: int| 0 <= a < b < rows.len() implies wrap_i32(
        tracks[#[trigger] rows[a]].id,
    ) != wrap_i32(tracks[#[trigger] rows[b]].id) by {
        assert(rows[a] < rows[b]);
        assert(is_last_of_id(tracks, rows[a]));
        assert(tracks[rows[b]].id != tracks[rows[a]].id);
        lemma_wrap_i32_injective(tracks[rows[a]].id, tracks[rows[b]].id);
    }
    assert forall|i: int| 0 <= i < n implies (in_collection(tracks, i) <==> #[trigger] rows.contains(
        i,
    )) by {
        if rows.contains(i) {
            let k = choose|k: int| 0 <= k < rows.len() && rows[k] == i;
            assert(in_collection(tracks, rows[k]));
        }
    }
}

/// Which rows make the collection: a row is in it exactly when no later row
/// has its ID and its title and file path decode; nothing else of the row
/// (its rating, tempo, play count, ...) matters.
pub proof fn lemma_collection_membership(tracks: Seq<PdbTrack>)
    ensures
        forall|i: int|
            0 <= i < tracks.len() ==> (#[trigger] collection_rows(tracks, tracks.len() as int).contains(i)
                <==> ((forall|j: int| i < j < tracks.len() ==> tracks[j].id != tracks[i].id)
                && tracks[i].title is Some && tracks[i].file_path is Some)),
{
    lemma_collection_ids_unique(tracks);
}

/// A count below 2^31 is written as itself.
pub proof fn lemma_count_as_i32_small(n: nat)
    requires
        n <= 0x7fff_ffff,
    ensures
        count_as_i32(n) == n,
{
}

} // verus!
