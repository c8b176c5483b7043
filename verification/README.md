# rekordcrate (XML export)

Builds rekordbox XML documents (`DJ_PLAYLISTS`) from the track and playlist
database of a DJ device, with the logic verified by Verus.

- `src/location.rs`: the `file://localhost/` URI of a track's file, with the
  proof that the percent-encoded path reads back to the joined path.
- `src/order.rs`: the stable ordering of playlist entries by entry index.
- `src/convert.rs`: the conversion of the playlist tree, and the pruning of
  playlist keys that the collection does not hold.
- `src/collection.rs`: the collection of tracks and the whole document.
- `src/node.rs`: the decisions taken while reading a playlist `NODE` element.
- `src/document.rs`, `src/pdb.rs`: the document and database types.
- `app/lib.rs`: the serde forms of the document and the writing of a file
  with quick-xml.
