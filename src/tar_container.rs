//! The tar adapter: lists the entries of a tar archive in stored order.
use vstd::prelude::*;

use std::io::Read;

use crate::container::{entries_from, entries_of, records_view, Container, FileItem, ItemView, RawRecord};
use crate::error::ReadError;
use crate::source::ByteSource;

verus! {

/// What tar reading makes of `b`: for each entry read before the end of
/// the archive or the first error, its path (bytes that are not UTF-8
/// replaced by U+FFFD), whether its type is a regular
/// file, whether it is a directory, its size and its content; and whether
/// an error stopped the reading.
pub uninterp spec fn tar_listing(b: Seq<u8>) -> (Seq<(Option<Seq<char>>, bool, bool, u64, Seq<u8>)>, bool);

/// Relies on tar::Archive::entries over `data`, with each entry's
/// header().entry_type(), path(), size() and content: the records of the
/// archive, and whether an error stopped the reading.
#[verifier::external_body]
fn tar_records(data: &[u8]) -> (r: (Vec<RawRecord>, bool))
    ensures
        (records_view(r.0@), r.1) == tar_listing(data@),
{
    let (mut archive, mut out) = (tar::Archive::new(data), Vec::new());
    let Ok(entries) = archive.entries() else { return (out, true) };
    for entry in entries {
        let Ok(mut e) = entry else { return (out, true) };
        let (t, mut content) = (e.header().entry_type(), Vec::new());
        let Ok(path) = e.path() else { return (out, true) };
        let path = path.to_string_lossy().into_owned();
        if e.read_to_end(&mut content).is_err() { return (out, true) }
        out.push(RawRecord { path: Some(path), is_file: t.is_file(), is_dir: t.is_dir(), size: e.size(), content });
    }
    (out, false)
}

/// The entries of the tar archive `b`, or the error that stops the listing.
pub open spec fn tar_entries(b: Seq<u8>) -> Result<Seq<ItemView>, ReadError> {
    entries_from(tar_listing(b).0, tar_listing(b).1)
}

/// A tar archive held as the stream it is stored in.
#[derive(Debug)]
pub struct TarContainer {
    source: ByteSource,
}

impl View for TarContainer {
    type V = Seq<u8>;

    closed spec fn view(&self) -> Seq<u8> {
        self.source@
    }
}

impl TarContainer {
    /// A tar archive read from `source`.
    pub fn new(source: ByteSource) -> (r: Self)
        ensures
            r@ == source@,
    {
        TarContainer { source }
    }
}

impl Container for TarContainer {
    open spec fn listing(&self) -> Result<Seq<ItemView>, ReadError> {
        tar_entries(self@)
    }

    fn items(self) -> (r: Result<Vec<FileItem>, ReadError>) {
        let data = self.source.read_to_end();
        let (records, failed) = tar_records(data.as_slice());
        entries_of(records, failed)
    }
}

} // verus!
