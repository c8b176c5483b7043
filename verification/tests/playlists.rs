use rekordcrate::convert::pdb_node_to_xml;
use rekordcrate::document::{PlaylistGenericNode, PlaylistTrack};
use rekordcrate::pdb::{Pdb, Playlist, PlaylistEntry, PlaylistFolder, PlaylistNode};

fn entry(playlist_id: u32, entry_index: u32, track_id: u32) -> PlaylistEntry {
    PlaylistEntry { entry_index, track_id, playlist_id }
}

fn pdb_with_entries(entries: Vec<PlaylistEntry>) -> Pdb {
    Pdb { tracks: vec![], playlists: vec![], playlist_entries: entries }
}

fn keys(node: &PlaylistGenericNode) -> Vec<i32> {
    match node {
        PlaylistGenericNode::Playlist(p) => p.tracks.iter().map(|t: &PlaylistTrack| t.key).collect(),
        PlaylistGenericNode::Folder(_) => panic!("expected a playlist"),
    }
}

#[test]
fn playlist_tracks_follow_entry_index() {
    let pdb = pdb_with_entries(vec![
        entry(7, 3, 30),
        entry(8, 1, 99),
        entry(7, 1, 10),
        entry(7, 2, 20),
    ]);
    let node = PlaylistNode::Playlist(Playlist { id: 7, name: "Set".to_string() });
    let xml = pdb_node_to_xml(&node, &pdb);
    assert_eq!(keys(&xml), vec![10, 20, 30]);
    match &xml {
        PlaylistGenericNode::Playlist(p) => {
            assert_eq!(p.name, "Set");
            assert_eq!(p.keytype, "0");
            assert_eq!(p.entries(), 3);
        }
        _ => panic!("expected a playlist"),
    }
}

#[test]
fn equal_entry_indices_keep_table_order() {
    let pdb = pdb_with_entries(vec![entry(1, 5, 50), entry(1, 2, 21), entry(1, 5, 51), entry(1, 2, 22)]);
    let node = PlaylistNode::Playlist(Playlist { id: 1, name: "p".to_string() });
    assert_eq!(keys(&pdb_node_to_xml(&node, &pdb)), vec![21, 22, 50, 51]);
}

#[test]
fn track_ids_above_i32_max_wrap() {
    let pdb = pdb_with_entries(vec![entry(1, 0, 0xffff_ffff), entry(1, 1, 0x8000_0000)]);
    let node = PlaylistNode::Playlist(Playlist { id: 1, name: "p".to_string() });
    assert_eq!(keys(&pdb_node_to_xml(&node, &pdb)), vec![-1, i32::MIN]);
}

#[test]
fn empty_playlist() {
    let pdb = pdb_with_entries(vec![entry(2, 0, 1)]);
    let node = PlaylistNode::Playlist(Playlist { id: 1, name: "empty".to_string() });
    assert_eq!(keys(&pdb_node_to_xml(&node, &pdb)), Vec::<i32>::new());
}

#[test]
fn folders_keep_their_children_in_order() {
    let pdb = pdb_with_entries(vec![entry(1, 0, 11), entry(2, 0, 22)]);
    let tree = PlaylistNode::Folder(PlaylistFolder {
        name: "Gigs".to_string(),
        children: vec![
            PlaylistNode::Playlist(Playlist { id: 2, name: "B".to_string() }),
            PlaylistNode::Folder(PlaylistFolder {
                name: "Inner".to_string(),
                children: vec![PlaylistNode::Playlist(Playlist { id: 1, name: "A".to_string() })],
            }),
        ],
    });
    match pdb_node_to_xml(&tree, &pdb) {
        PlaylistGenericNode::Folder(f) => {
            assert_eq!(f.name, "Gigs");
            assert_eq!(f.count(), 2);
            assert_eq!(keys(&f.nodes[0]), vec![22]);
            match &f.nodes[1] {
                PlaylistGenericNode::Folder(inner) => {
                    assert_eq!(inner.name, "Inner");
                    assert_eq!(inner.count(), 1);
                    assert_eq!(keys(&inner.nodes[0]), vec![11]);
                }
                _ => panic!("expected a folder"),
            }
        }
        _ => panic!("expected a folder"),
    }
}

#[test]
fn playlist_entries_are_filtered_by_playlist() {
    let pdb = pdb_with_entries(vec![entry(1, 0, 5), entry(2, 0, 6), entry(1, 1, 7)]);
    assert_eq!(pdb.get_playlist_entries(1), vec![(0, 5), (1, 7)]);
    assert_eq!(pdb.get_playlist_entries(3), vec![]);
}
