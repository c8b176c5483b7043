//! The rekordbox XML document, as the library builds it.
//!
//! Durations, tempos and sample rates, which the XML file writes as decimal
//! numbers, are held here as the integers they are made from; the fields'
//! documentation gives the unit.

use vstd::prelude::*;

verus! {

/// The root element `DJ_PLAYLISTS` of a rekordbox XML file.
#[derive(Debug, PartialEq)]
pub struct Document {
    /// Version of the XML format (the latest is `1.0.0`).
    pub version: String,
    /// The application that wrote the file.
    pub product: Product,
    /// All tracks of the collection.
    pub collection: Collection,
    /// The playlist tree.
    pub playlists: Playlists,
}

/// The `PRODUCT` element: the application that wrote the file.
#[derive(Debug, PartialEq)]
pub struct Product {
    /// Name of the product.
    pub name: String,
    /// Version of the application.
    pub version: String,
    /// Name of the company.
    pub company: String,
}

/// The `COLLECTION` element.
#[derive(Debug, PartialEq)]
pub struct Collection {
    /// Number of `TRACK` elements in the collection.
    pub entries: i32,
    /// The tracks.
    pub track: Vec<Track>,
}

/// A `TRACK` of the collection; `location` is the one attribute that every
/// track has.
#[derive(Debug, PartialEq)]
pub struct Track {
    /// Identification of the track.
    pub trackid: i32,
    /// Name of the track.
    pub name: Option<String>,
    /// Name of the artist.
    pub artist: Option<String>,
    /// Name of the composer (or producer).
    pub composer: Option<String>,
    /// Name of the album.
    pub album: Option<String>,
    /// Name of the grouping.
    pub grouping: Option<String>,
    /// Name of the genre.
    pub genre: Option<String>,
    /// Type of the audio file.
    pub kind: Option<String>,
    /// Size of the audio file, in octets.
    pub size: Option<i64>,
    /// Duration of the track, in whole seconds.
    pub totaltime: Option<u32>,
    /// Order number of the disc in the album.
    pub discnumber: Option<i32>,
    /// Order number of the track in the album.
    pub tracknumber: Option<i32>,
    /// Year of release.
    pub year: Option<i32>,
    /// Average tempo, in hundredths of a beat per minute.
    pub averagebpm: Option<u32>,
    /// Date of the last modification (`yyyy-mm-dd`).
    pub datemodified: Option<String>,
    /// Date of addition (`yyyy-mm-dd`).
    pub dateadded: Option<String>,
    /// Encoding bit rate, in kbit/s.
    pub bitrate: Option<i32>,
    /// Sampling frequency, in hertz.
    pub samplerate: Option<u32>,
    /// Comments.
    pub comments: Option<String>,
    /// Play count of the track.
    pub playcount: Option<i32>,
    /// Date of the last playing (`yyyy-mm-dd`).
    pub lastplayed: Option<String>,
    /// Rating of the track (0, 51, 102, 153, 204 or 255 for zero to five stars).
    pub rating: Option<i32>,
    /// Location of the file, a `file://` URI.
    pub location: String,
    /// Name of the remixer.
    pub remixer: Option<String>,
    /// Tonality (kind of musical key).
    pub tonality: Option<String>,
    /// Name of the record label.
    pub label: Option<String>,
    /// Name of the mix.
    pub mix: Option<String>,
    /// Colour for track grouping.
    pub colour: Option<String>,
}

/// The `PLAYLISTS` element, which holds the root folder of the tree.
#[derive(Debug, PartialEq)]
pub struct Playlists {
    /// The root folder.
    pub node: PlaylistFolderNode,
}

/// A `NODE` of the playlist tree: a folder (type `0`) or a playlist (type `1`).
#[derive(Debug, PartialEq)]
pub enum PlaylistGenericNode {
    /// A folder of further nodes.
    Folder(PlaylistFolderNode),
    /// A playlist of tracks.
    Playlist(PlaylistPlaylistNode),
}

/// A folder node; its `Count` attribute is the number of its nodes.
#[derive(Debug, PartialEq)]
pub struct PlaylistFolderNode {
    /// Name of the node.
    pub name: String,
    /// The nodes in the folder.
    pub nodes: Vec<PlaylistGenericNode>,
}

/// A playlist node; its `Entries` attribute is the number of its tracks.
#[derive(Debug, PartialEq)]
pub struct PlaylistPlaylistNode {
    /// Name of the node.
    pub name: String,
    /// Kind of identification of the tracks: `0` (track ID) or `1` (location).
    pub keytype: String,
    /// The tracks of the playlist.
    pub tracks: Vec<PlaylistTrack>,
}

/// A `TRACK` of a playlist.
#[derive(Debug, Clone, Copy, PartialEq)]
pub struct PlaylistTrack {
    /// The track's ID or location in the collection, as the key type says.
    pub key: i32,
}

impl PlaylistFolderNode {
    /// The `Count` attribute written for the folder: the number of its nodes.
    pub fn count(&self) -> (n: usize)
        ensures
            n == self.nodes@.len(),
    {
        self.nodes.len()
    }
}

impl PlaylistPlaylistNode {
    /// The `Entries` attribute written for the playlist: the number of its tracks.
    pub fn entries(&self) -> (n: usize)
        ensures
            n == self.tracks@.len(),
    {
        self.tracks.len()
    }
}

/// The declaration that starts a rekordbox XML file, with its line break.
pub open spec fn xml_declaration() -> Seq<char> {
    "<?xml version=\"1.0\" encoding=\"UTF-8\"?>\n"@
}

/// The declaration that an XML file starts with, ahead of its root element.
pub fn xml_declaration_text() -> (text: &'static str)
    ensures
        text@ == xml_declaration(),
{
    "<?xml version=\"1.0\" encoding=\"UTF-8\"?>\n"
}

} // verus!
