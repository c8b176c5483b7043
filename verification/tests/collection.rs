use rekordcrate::collection::{collection_tracks, document_from_pdb, xml_track};
use rekordcrate::convert::u32_to_i32;
use rekordcrate::document::{xml_declaration_text, PlaylistGenericNode};
use rekordcrate::pdb::{Pdb, PdbTrack, Playlist, PlaylistEntry, PlaylistNode};

fn row(id: u32, title: Option<&str>, path: Option<&str>) -> PdbTrack {
    PdbTrack {
        id,
        title: title.map(|s| s.to_string()),
        file_path: path.map(|s| s.to_string()),
        file_size: 1234,
        duration: 215,
        disc_number: 1,
        track_number: 4,
        year: 1999,
        tempo: 12850,
        date_added: Some("2020-01-02".to_string()),
        bitrate: 320,
        sample_rate: 44100,
        comment: Some(String::new()),
        play_count: 3,
        rating: 3,
        mix_name: None,
    }
}

#[test]
fn track_fields_are_converted() {
    let t = xml_track(&row(9, Some("Song"), Some("/Contents/a b.mp3")), "X:\\USB").unwrap();
    assert_eq!(t.trackid, 9);
    assert_eq!(t.name.as_deref(), Some("Song"));
    assert_eq!(t.size, Some(1234));
    assert_eq!(t.totaltime, Some(215));
    assert_eq!(t.discnumber, Some(1));
    assert_eq!(t.tracknumber, Some(4));
    assert_eq!(t.year, Some(1999));
    assert_eq!(t.averagebpm, Some(12850));
    assert_eq!(t.dateadded.as_deref(), Some("2020-01-02"));
    assert_eq!(t.bitrate, Some(320));
    assert_eq!(t.samplerate, Some(44100));
    assert_eq!(t.comments, None);
    assert_eq!(t.playcount, Some(3));
    assert_eq!(t.rating, Some(153));
    assert_eq!(t.mix, None);
    assert_eq!(t.location, "file://localhost/X:/USB/Contents/a%20b.mp3");
    assert!(t.artist.is_none() && t.datemodified.is_none() && t.colour.is_none());
}

#[test]
fn ratings_use_the_star_scale() {
    let expected = [Some(0), Some(51), Some(102), Some(153), Some(204), Some(255), Some(6), Some(255)];
    for (stars, want) in [0u8, 1, 2, 3, 4, 5, 6, 255].iter().zip(expected.iter()) {
        let mut r = row(1, Some("t"), Some("/p"));
        r.rating = *stars;
        assert_eq!(xml_track(&r, "").unwrap().rating, *want);
    }
}

#[test]
fn zero_tempo_has_no_average_bpm() {
    let mut r = row(1, Some("t"), Some("/p"));
    r.tempo = 0;
    assert_eq!(xml_track(&r, "").unwrap().averagebpm, None);
}

#[test]
fn rows_without_title_or_path_are_left_out() {
    assert!(xml_track(&row(1, None, Some("/p")), "").is_none());
    assert!(xml_track(&row(1, Some("t"), None), "").is_none());
    assert!(xml_track(&row(1, Some(""), Some("/p")), "").is_some());
}

#[test]
fn the_last_row_of_an_id_counts() {
    let rows = vec![
        row(1, Some("first"), Some("/a")),
        row(2, Some("two"), Some("/b")),
        row(1, Some("second"), Some("/c")),
        row(3, None, Some("/d")),
        row(2, None, Some("/e")),
    ];
    let tracks = collection_tracks(&rows, "B:");
    let names: Vec<_> = tracks.iter().map(|t| (t.trackid, t.name.clone().unwrap())).collect();
    assert_eq!(names, vec![(1, "second".to_string())]);
}

#[test]
fn wrapping_conversion() {
    assert_eq!(u32_to_i32(0), 0);
    assert_eq!(u32_to_i32(0x7fff_ffff), i32::MAX);
    assert_eq!(u32_to_i32(0x8000_0000), i32::MIN);
    assert_eq!(u32_to_i32(0xffff_fffe), -2);
}

#[test]
fn document_from_database() {
    let pdb = Pdb {
        tracks: vec![row(5, Some("a"), Some("/x.mp3")), row(6, Some("b"), Some("/y.mp3"))],
        playlists: vec![PlaylistNode::Playlist(Playlist { id: 3, name: "List".to_string() })],
        playlist_entries: vec![
            PlaylistEntry { entry_index: 2, track_id: 5, playlist_id: 3 },
            PlaylistEntry { entry_index: 1, track_id: 6, playlist_id: 3 },
        ],
    };
    let doc = document_from_pdb(&pdb, "O:\\PIONEER");
    assert_eq!(doc.version, "1.0.0");
    assert_eq!(doc.product.name, "rekordbox");
    assert_eq!(doc.product.version, "6.0.0");
    assert_eq!(doc.product.company, "AlphaTheta");
    assert_eq!(doc.collection.entries, 2);
    assert_eq!(doc.collection.track.len(), 2);
    assert_eq!(doc.collection.track[0].location, "file://localhost/O:/PIONEER/x.mp3");
    assert_eq!(doc.playlists.node.name, "ROOT");
    assert_eq!(doc.playlists.node.count(), 1);
    match &doc.playlists.node.nodes[0] {
        PlaylistGenericNode::Playlist(p) => {
            assert_eq!(p.name, "List");
            let keys: Vec<i32> = p.tracks.iter().map(|t| t.key).collect();
            assert_eq!(keys, vec![6, 5]);
        }
        _ => panic!("expected a playlist"),
    }
}

#[test]
fn empty_database() {
    let pdb = Pdb { tracks: vec![], playlists: vec![], playlist_entries: vec![] };
    let doc = document_from_pdb(&pdb, "");
    assert_eq!(doc.collection.entries, 0);
    assert!(doc.collection.track.is_empty());
    assert_eq!(doc.playlists.node.count(), 0);
}

#[test]
fn xml_declaration() {
    assert_eq!(xml_declaration_text(), "<?xml version=\"1.0\" encoding=\"UTF-8\"?>\n");
}

#[test]
fn playlist_keys_outside_the_collection_are_dropped() {
    let pdb = Pdb {
        tracks: vec![row(1, None, Some("/untitled.mp3")), row(2, Some("b"), Some("/b.mp3"))],
        playlists: vec![PlaylistNode::Playlist(Playlist { id: 4, name: "L".to_string() })],
        playlist_entries: vec![
            PlaylistEntry { entry_index: 0, track_id: 1, playlist_id: 4 },
            PlaylistEntry { entry_index: 1, track_id: 2, playlist_id: 4 },
            PlaylistEntry { entry_index: 2, track_id: 9, playlist_id: 4 },
        ],
    };
    let doc = document_from_pdb(&pdb, "");
    assert_eq!(doc.collection.track.len(), 1);
    match &doc.playlists.node.nodes[0] {
        PlaylistGenericNode::Playlist(p) => {
            let keys: Vec<i32> = p.tracks.iter().map(|t| t.key).collect();
            assert_eq!(keys, vec![2]);
            assert_eq!(p.entries(), 1);
        }
        _ => panic!("expected a playlist"),
    }
}
