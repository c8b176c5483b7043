//! What the library reads of a device's track and playlist database.

use vstd::prelude::*;

verus! {

/// A track row of the database. The strings that the database holds in a
/// form that does not decode are `None`.
#[derive(Debug)]
pub struct PdbTrack {
    /// ID of the track.
    pub id: u32,
    /// Title of the track.
    pub title: Option<String>,
    /// Path of the audio file on the device, such as `/Contents/Artist/file.mp3`.
    pub file_path: Option<String>,
    /// Size of the audio file, in octets.
    pub file_size: u32,
    /// Duration, in seconds.
    pub duration: u16,
    /// Disc number.
    pub disc_number: u16,
    /// Track number.
    pub track_number: u32,
    /// Year of release.
    pub year: u16,
    /// Tempo, in hundredths of a beat per minute (0 where unknown).
    pub tempo: u32,
    /// Date of addition.
    pub date_added: Option<String>,
    /// Bit rate, in kbit/s.
    pub bitrate: u32,
    /// Sample rate, in hertz.
    pub sample_rate: u32,
    /// Comment.
    pub comment: Option<String>,
    /// Play count.
    pub play_count: u16,
    /// Rating, as a number of stars from 0 to 5 (other values are kept as
    /// they are).
    pub rating: u8,
    /// Name of the mix.
    pub mix_name: Option<String>,
}

/// A folder of the playlist tree.
#[derive(Debug)]
pub struct PlaylistFolder {
    /// Name of the folder.
    pub name: String,
    /// Its folders and playlists, in order.
    pub children: Vec<PlaylistNode>,
}

/// A playlist of the playlist tree.
#[derive(Debug)]
pub struct Playlist {
    /// ID of the playlist, by which its entries refer to it.
    pub id: u32,
    /// Name of the playlist.
    pub name: String,
}

/// A node of the playlist tree.
#[derive(Debug)]
pub enum PlaylistNode {
    /// A folder.
    Folder(PlaylistFolder),
    /// A playlist.
    Playlist(Playlist),
}

/// A row of the playlist entries table: the track at position
/// `entry_index` of the playlist `playlist_id`.
#[derive(Debug, Clone, Copy)]
pub struct PlaylistEntry {
    /// Position of the entry in its playlist.
    pub entry_index: u32,
    /// ID of the track.
    pub track_id: u32,
    /// ID of the playlist.
    pub playlist_id: u32,
}

/// The database of a device.
#[derive(Debug)]
pub struct Pdb {
    /// The track rows, in table order.
    pub tracks: Vec<PdbTrack>,
    /// The top level of the playlist tree.
    pub playlists: Vec<PlaylistNode>,
    /// The playlist entry rows, in table order.
    pub playlist_entries: Vec<PlaylistEntry>,
}

/// The `(entry_index, track_id)` pairs of the rows of playlist `id`, in table
/// order.
pub open spec fn entries_of(rows: Seq<PlaylistEntry>, id: u32) -> Seq<(u32, u32)>
    decreases rows.len(),
{
    if rows.len() == 0 {
        seq![]
    } else if rows.last().playlist_id == id {
        entries_of(rows.drop_last(), id).push((rows.last().entry_index, rows.last().track_id))
    } else {
        entries_of(rows.drop_last(), id)
    }
}

/// The entries of playlist `id` are exactly the rows whose playlist is `id`,
/// each as its `(entry_index, track_id)`, in table order: none is dropped,
/// merged or added, so there are as many as there are such rows.
pub proof fn lemma_entries_of_rows(rows: Seq<PlaylistEntry>, id: u32)
    ensures
        entries_of(rows, id) == rows.filter(|r: PlaylistEntry| r.playlist_id == id).map_values(
            |r: PlaylistEntry| (r.entry_index, r.track_id),
        ),
        entries_of(rows, id).len() == rows.filter(|r: PlaylistEntry| r.playlist_id == id).len(),
    decreases rows.len(),
{
    reveal(Seq::filter);
    let pred = |r: PlaylistEntry| r.playlist_id == id;
    let f = |r: PlaylistEntry| (r.entry_index, r.track_id);
    if rows.len() > 0 {
        lemma_entries_of_rows(rows.drop_last(), id);
        let before = rows.drop_last().filter(pred);
        if pred(rows.last()) {
            assert(rows.filter(pred) == before.push(rows.last()));
            assert(before.push(rows.last()).map_values(f) =~= before.map_values(f).push(
                f(rows.last()),
            ));
        } else {
            assert(rows.filter(pred) == before);
        }
    } else {
        assert(rows.filter(pred).map_values(f) =~= Seq::<(u32, u32)>::empty());
    }
}

impl Pdb {
    /// The entries of the playlist `id`, as `(entry_index, track_id)` pairs in
    /// table order.
    pub fn get_playlist_entries(&self, id: u32) -> (entries: Vec<(u32, u32)>)
        ensures
            entries@ == entries_of(self.playlist_entries@, id),
            entries@ == self.playlist_entries@.filter(|r: PlaylistEntry| r.playlist_id == id).map_values(
                |r: PlaylistEntry| (r.entry_index, r.track_id),
            ),
    {
        let mut entries: Vec<(u32, u32)> = Vec::new();
        for i in 0..self.playlist_entries.len()
            invariant
                entries@ == entries_of(self.playlist_entries@.take(i as int), id),
        {
            let row = self.playlist_entries[i];
            assert(self.playlist_entries@.take(i + 1).drop_last() =~= self.playlist_entries@.take(
                i as int,
            ));
            if row.playlist_id == id {
                entries.push((row.entry_index, row.track_id));
            }
        }
        assert(self.playlist_entries@.take(self.playlist_entries@.len() as int)
            =~= self.playlist_entries@);
        proof {
            lemma_entries_of_rows(self.playlist_entries@, id);
        }
        entries
    }
}

} // verus!
