//! Turning a device database into a rekordbox XML document.

use std::collections::HashSet;
use vstd::prelude::*;
use crate::document::{PlaylistFolderNode, PlaylistGenericNode, PlaylistPlaylistNode, PlaylistTrack};
use crate::order::{lemma_sort_by_index, sort_by_index, sort_entries_by_index};
use crate::pdb::{entries_of, lemma_entries_of_rows, Pdb, PlaylistEntry, PlaylistNode};

verus! {

broadcast use vstd::std_specs::hash::group_hash_axioms;

/// The `i32` with the same 32 bits as `x` (what `x as i32` gives).
pub open spec fn wrap_i32(x: u32) -> i32 {
    if x <= 0x7fff_ffff {
        x as i32
    } else {
        (x - 0x1_0000_0000) as i32
    }
}

/// Reinterprets the bits of `x` as an `i32`.
pub fn u32_to_i32(x: u32) -> (r: i32)
    ensures
        r == wrap_i32(x),
{
    if x <= 0x7fff_ffff {
        x as i32
    } else {
        ((x - 0x8000_0000) as i32) + i32::MIN
    }
}

/// The keys of the tracks of playlist `id`: the track IDs of its entries in
/// the order of their entry index, entries with the same index in table order.
pub open spec fn playlist_keys(rows: Seq<PlaylistEntry>, id: u32) -> Seq<i32> {
    sort_by_index(entries_of(rows, id)).map_values(|e: (u32, u32)| wrap_i32(e.1))
}

/// A playlist has one track for each row of the entries table that belongs
/// to it, repeated tracks included.
pub proof fn lemma_playlist_keys_count(rows: Seq<PlaylistEntry>, id: u32)
    ensures
        playlist_keys(rows, id).len() == rows.filter(|r: PlaylistEntry| r.playlist_id == id).len(),
{
    lemma_entries_of_rows(rows, id);
    lemma_sort_by_index(entries_of(rows, id));
}

/// The keys of a playlist node's tracks.
pub open spec fn track_keys(tracks: Seq<PlaylistTrack>) -> Seq<i32> {
    tracks.map_values(|t: PlaylistTrack| t.key)
}

/// `xml` is the XML node for the database node `node`: a folder becomes a
/// folder of the same name whose nodes are its children's, in order; a
/// playlist becomes a playlist of the same name, keyed by track ID (key type
/// `0`), whose tracks are the playlist's entries by entry index.
pub open spec fn converted(node: PlaylistNode, xml: PlaylistGenericNode, rows: Seq<PlaylistEntry>) -> bool
    decreases node,
{
    match node {
        PlaylistNode::Folder(f) => match xml {
            PlaylistGenericNode::Folder(x) => {
                &&& x.name@ == f.name@
                &&& x.nodes@.len() == f.children@.len()
                &&& forall|i: int|
                    0 <= i < f.children@.len() ==> converted(
                        #[trigger] f.children@[i],
                        x.nodes@[i],
                        rows,
                    )
            },
            PlaylistGenericNode::Playlist(_) => false,
        },
        PlaylistNode::Playlist(p) => match xml {
            PlaylistGenericNode::Playlist(x) => {
                &&& x.name@ == p.name@
                &&& x.keytype@ == seq!['0']
                &&& track_keys(x.tracks@) == playlist_keys(rows, p.id)
            },
            PlaylistGenericNode::Folder(_) => false,
        },
    }
}

/// The tracks of playlist `id`, keyed by track ID in entry-index order.
fn playlist_tracks(pdb: &Pdb, id: u32) -> (tracks: Vec<PlaylistTrack>)
    ensures
        track_keys(tracks@) == playlist_keys(pdb.playlist_entries@, id),
{
    let entries = pdb.get_playlist_entries(id);
    let sorted = sort_entries_by_index(&entries);
    let mut tracks: Vec<PlaylistTrack> = Vec::new();
    for i in 0..sorted.len()
        invariant
            track_keys(tracks@) =~= sorted@.take(i as int).map_values(
                |e: (u32, u32)| wrap_i32(e.1),
            ),
    {
        let key = u32_to_i32(sorted[i].1);
        let ghost before = tracks@;
        tracks.push(PlaylistTrack { key });
        assert(sorted@.take(i + 1) =~= sorted@.take(i as int).push(sorted@[i as int]));
        assert(track_keys(tracks@) =~= track_keys(before).push(key));
    }
    assert(sorted@.take(sorted@.len() as int) =~= sorted@);
    tracks
}

/// Converts a node of the database's playlist tree, with all the nodes under
/// it, into a node of the XML playlist tree.
pub fn pdb_node_to_xml(node: &PlaylistNode, pdb: &Pdb) -> (xml: PlaylistGenericNode)
    ensures
        converted(*node, xml, pdb.playlist_entries@),
    decreases node,
{
    match node {
        PlaylistNode::Folder(folder) => {
            let mut nodes: Vec<PlaylistGenericNode> = Vec::new();
            for i in 0..folder.children.len()
                invariant
                    *node == PlaylistNode::Folder(*folder),
                    nodes@.len() == i,
                    forall|j: int|
                        0 <= j < i ==> converted(
                            #[trigger] folder.children@[j],
                            nodes@[j],
                            pdb.playlist_entries@,
                        ),
            {
                proof {
                    assert(decreases_to!(*node => (*node)->Folder_0));
                    assert(decreases_to!(*folder => folder.children));
                    assert(decreases_to!(folder.children => folder.children@));
                    assert(decreases_to!(folder.children@ => folder.children@[i as int]));
                }
                let child = pdb_node_to_xml(&folder.children[i], pdb);
                nodes.push(child);
            }
            let xml = PlaylistGenericNode::Folder(
                PlaylistFolderNode { name: folder.name.clone(), nodes },
            );
            assert(converted(*node, xml, pdb.playlist_entries@));
            xml
        },
        PlaylistNode::Playlist(playlist) => {
            let tracks = playlist_tracks(pdb, playlist.id);
            let keytype = String::from_str("0");
            proof {
                reveal_strlit("0");
            }
            assert(keytype@ =~= seq!['0']);
            PlaylistGenericNode::Playlist(
                PlaylistPlaylistNode { name: playlist.name.clone(), keytype, tracks },
            )
        },
    }
}

/// Keeps the keys that `known` holds.
pub open spec fn known_key(known: Set<i32>) -> spec_fn(i32) -> bool {
    |k: i32| known.contains(k)
}

/// `y` is `x` with only the playlist tracks whose keys `known` holds: the
/// same tree, names and key types, each playlist's remaining keys in their
/// order.
pub open spec fn pruned(x: PlaylistGenericNode, y: PlaylistGenericNode, known: Set<i32>) -> bool
    decreases x,
{
    match x {
        PlaylistGenericNode::Folder(f) => match y {
            PlaylistGenericNode::Folder(g) => {
                &&& g.name == f.name
                &&& g.nodes@.len() == f.nodes@.len()
                &&& forall|i: int|
                    0 <= i < f.nodes@.len() ==> pruned(#[trigger] f.nodes@[i], g.nodes@[i], known)
            },
            PlaylistGenericNode::Playlist(_) => false,
        },
        PlaylistGenericNode::Playlist(p) => match y {
            PlaylistGenericNode::Playlist(q) => {
                &&& q.name == p.name
                &&& q.keytype == p.keytype
                &&& track_keys(q.tracks@) == track_keys(p.tracks@).filter(known_key(known))
            },
            PlaylistGenericNode::Folder(_) => false,
        },
    }
}

/// `xml` is the exported XML node for the database node `node`: as in
/// `converted`, except that a playlist keeps only the keys that `known` (the
/// track IDs of the collection) holds.
pub open spec fn exported(
    node: PlaylistNode,
    xml: PlaylistGenericNode,
    rows: Seq<PlaylistEntry>,
    known: Set<i32>,
) -> bool
    decreases node,
{
    match node {
        PlaylistNode::Folder(f) => match xml {
            PlaylistGenericNode::Folder(x) => {
                &&& x.name@ == f.name@
                &&& x.nodes@.len() == f.children@.len()
                &&& forall|i: int|
                    0 <= i < f.children@.len() ==> exported(
                        #[trigger] f.children@[i],
                        x.nodes@[i],
                        rows,
                        known,
                    )
            },
            PlaylistGenericNode::Playlist(_) => false,
        },
        PlaylistNode::Playlist(p) => match xml {
            PlaylistGenericNode::Playlist(x) => {
                &&& x.name@ == p.name@
                &&& x.keytype@ == seq!['0']
                &&& track_keys(x.tracks@) == playlist_keys(rows, p.id).filter(known_key(known))
            },
            PlaylistGenericNode::Folder(_) => false,
        },
    }
}

/// Every playlist key anywhere in `xml` is held by `known`.
pub open spec fn keys_within(xml: PlaylistGenericNode, known: Set<i32>) -> bool
    decreases xml,
{
    match xml {
        PlaylistGenericNode::Folder(f) => forall|i: int|
            0 <= i < f.nodes@.len() ==> keys_within(#[trigger] f.nodes@[i], known),
        PlaylistGenericNode::Playlist(p) => forall|i: int|
            0 <= i < p.tracks@.len() ==> known.contains(#[trigger] p.tracks@[i].key),
    }
}

/// Pruning a converted node gives the exported node.
pub proof fn lemma_pruned_converted_is_exported(
    node: PlaylistNode,
    x: PlaylistGenericNode,
    y: PlaylistGenericNode,
    rows: Seq<PlaylistEntry>,
    known: Set<i32>,
)
    requires
        converted(node, x, rows),
        pruned(x, y, known),
    ensures
        exported(node, y, rows, known),
    decreases node,
{
    match node {
        PlaylistNode::Folder(f) => {
            let fx = x->Folder_0;
            let fy = y->Folder_0;
            assert forall|i: int| 0 <= i < f.children@.len() implies exported(
                #[trigger] f.children@[i],
                fy.nodes@[i],
                rows,
                known,
            ) by {
                assert(converted(f.children@[i], fx.nodes@[i], rows));
                assert(pruned(fx.nodes@[i], fy.nodes@[i], known));
                lemma_pruned_converted_is_exported(
                    f.children@[i],
                    fx.nodes@[i],
                    fy.nodes@[i],
                    rows,
                    known,
                );
            }
        },
        PlaylistNode::Playlist(_) => {},
    }
}

/// An exported tree refers only to tracks that `known` holds: no playlist key
/// dangles.
pub proof fn lemma_exported_keys_known(
    node: PlaylistNode,
    y: PlaylistGenericNode,
    rows: Seq<PlaylistEntry>,
    known: Set<i32>,
)
    requires
        exported(node, y, rows, known),
    ensures
        keys_within(y, known),
    decreases node,
{
    match node {
        PlaylistNode::Folder(f) => {
            let fy = y->Folder_0;
            assert forall|i: int| 0 <= i < fy.nodes@.len() implies keys_within(
                #[trigger] fy.nodes@[i],
                known,
            ) by {
                assert(exported(f.children@[i], fy.nodes@[i], rows, known));
                lemma_exported_keys_known(f.children@[i], fy.nodes@[i], rows, known);
            }
        },
        PlaylistNode::Playlist(p) => {
            let q = y->Playlist_0;
            assert forall|i: int| 0 <= i < q.tracks@.len() implies known.contains(
                #[trigger] q.tracks@[i].key,
            ) by {
                assert(track_keys(q.tracks@)[i] == q.tracks@[i].key);
                playlist_keys(rows, p.id).lemma_filter_pred(known_key(known), i);
            }
        },
    }
}

/// Two XML trees converted from the same database node agree in everything
/// the conversion states: conversion fixes the tree.
pub open spec fn same_tree(x: PlaylistGenericNode, y: PlaylistGenericNode) -> bool
    decreases x,
{
    match (x, y) {
        (PlaylistGenericNode::Folder(f), PlaylistGenericNode::Folder(g)) => {
            &&& f.name@ == g.name@
            &&& f.nodes@.len() == g.nodes@.len()
            &&& forall|i: int|
                0 <= i < f.nodes@.len() ==> same_tree(#[trigger] f.nodes@[i], g.nodes@[i])
        },
        (PlaylistGenericNode::Playlist(p), PlaylistGenericNode::Playlist(q)) => {
            &&& p.name@ == q.name@
            &&& p.keytype@ == q.keytype@
            &&& p.tracks@ == q.tracks@
        },
        _ => false,
    }
}

/// The conversion of a database node is determined: any two conversions of
/// it have the same shape, names, key types and tracks.
pub proof fn lemma_converted_determined(
    node: PlaylistNode,
    x: PlaylistGenericNode,
    y: PlaylistGenericNode,
    rows: Seq<PlaylistEntry>,
)
    requires
        converted(node, x, rows),
        converted(node, y, rows),
    ensures
        same_tree(x, y),
    decreases node,
{
    match node {
        PlaylistNode::Folder(f) => {
            let fx = x->Folder_0;
            let fy = y->Folder_0;
            assert forall|i: int| 0 <= i < fx.nodes@.len() implies same_tree(
                #[trigger] fx.nodes@[i],
                fy.nodes@[i],
            ) by {
                assert(converted(f.children@[i], fx.nodes@[i], rows));
                assert(converted(f.children@[i], fy.nodes@[i], rows));
                lemma_converted_determined(f.children@[i], fx.nodes@[i], fy.nodes@[i], rows);
            }
        },
        PlaylistNode::Playlist(_) => {
            let p = x->Playlist_0;
            let q = y->Playlist_0;
            assert(p.tracks@.len() == track_keys(p.tracks@).len());
            assert(q.tracks@.len() == track_keys(q.tracks@).len());
            assert forall|i: int| 0 <= i < p.tracks@.len() implies p.tracks@[i] == q.tracks@[i] by {
                assert(track_keys(p.tracks@)[i] == p.tracks@[i].key);
                assert(track_keys(q.tracks@)[i] == q.tracks@[i].key);
            }
            assert(p.tracks@ =~= q.tracks@);
        },
    }
}

/// The tracks of a playlist node whose keys `known` holds, in order.
fn known_tracks(tracks: &Vec<PlaylistTrack>, known: &HashSet<i32>) -> (kept: Vec<PlaylistTrack>)
    ensures
        track_keys(kept@) == track_keys(tracks@).filter(known_key(known@)),
{
    let mut kept: Vec<PlaylistTrack> = Vec::new();
    for i in 0..tracks.len()
        invariant
            track_keys(kept@) == track_keys(tracks@.take(i as int)).filter(known_key(known@)),
    {
        let t = tracks[i];
        let ghost before = kept@;
        proof {
            assert(track_keys(tracks@.take(i + 1)) =~= track_keys(tracks@.take(i as int)).push(
                t.key,
            ));
            track_keys(tracks@.take(i as int)).lemma_filter_push(t.key, known_key(known@));
        }
        if known.contains(&t.key) {
            kept.push(t);
            assert(track_keys(kept@) =~= track_keys(before).push(t.key));
        }
    }
    assert(tracks@.take(tracks@.len() as int) =~= tracks@);
    kept
}

/// A copy of an XML playlist tree in which each playlist keeps only the
/// tracks whose keys `known` holds.
pub fn keep_known_keys(x: &PlaylistGenericNode, known: &HashSet<i32>) -> (y: PlaylistGenericNode)
    ensures
        pruned(*x, y, known@),
    decreases x,
{
    match x {
        PlaylistGenericNode::Folder(f) => {
            let mut nodes: Vec<PlaylistGenericNode> = Vec::new();
            for i in 0..f.nodes.len()
                invariant
                    *x == PlaylistGenericNode::Folder(*f),
                    nodes@.len() == i,
                    forall|j: int|
                        0 <= j < i ==> pruned(#[trigger] f.nodes@[j], nodes@[j], known@),
            {
                proof {
                    assert(decreases_to!(*x => (*x)->Folder_0));
                    assert(decreases_to!(*f => f.nodes));
                    assert(decreases_to!(f.nodes => f.nodes@));
                    assert(decreases_to!(f.nodes@ => f.nodes@[i as int]));
                }
                nodes.push(keep_known_keys(&f.nodes[i], known));
            }
            let y = PlaylistGenericNode::Folder(PlaylistFolderNode { name: f.name.clone(), nodes });
            assert(pruned(*x, y, known@));
            y
        },
        PlaylistGenericNode::Playlist(p) => {
            let tracks = known_tracks(&p.tracks, known);
            PlaylistGenericNode::Playlist(
                PlaylistPlaylistNode { name: p.name.clone(), keytype: p.keytype.clone(), tracks },
            )
        },
    }
}

} // verus!
