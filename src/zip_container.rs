//! The zip adapter: reads local file records front to back, without the
//! central directory, so the stream need not be seekable.
use vstd::prelude::*;

use std::io::Read;

use crate::container::{entries_from, entries_of, records_view, Container, FileItem, ItemView, RawRecord};
use crate::error::ReadError;
use crate::source::ByteSource;

verus! {

/// What reading zip local file records from the front of `b` makes of it:
/// for each record read before the central directory or the first error,
/// its enclosed path (`None` where the name is absolute or leaves its
/// directory; bytes that are not UTF-8 replaced by U+FFFD), whether it is
/// a file, whether it is a directory, its uncompressed size and its
/// content; and whether an error stopped the reading.
pub uninterp spec fn zip_listing(b: Seq<u8>) -> (Seq<(Option<Seq<char>>, bool, bool, u64, Seq<u8>)>, bool);

/// Relies on zip::read::read_zipfile_from_stream, called until it reports
/// the central directory or fails, with each record's enclosed_name(),
/// is_file(), is_dir(), size() and content.
#[verifier::external_body]
fn zip_records(data: &[u8]) -> (r: (Vec<RawRecord>, bool))
    ensures
        (records_view(r.0@), r.1) == zip_listing(data@),
{
    let (mut rest, mut out) = (data, Vec::new());
    loop {
        let mut f = match zip::read::read_zipfile_from_stream(&mut rest) {
            Ok(Some(f)) => f,
            Ok(None) => return (out, false),
            Err(_) => return (out, true),
        };
        let (name, mut content) = (f.enclosed_name(), Vec::new());
        if f.read_to_end(&mut content).is_err() { return (out, true) }
        let path = match name { Some(p) => Some(p.to_string_lossy().into_owned()), None => None };
        out.push(RawRecord { path, is_file: f.is_file(), is_dir: f.is_dir(), size: f.size(), content });
    }
}

/// The entries of the zip archive `b`, or the error that stops the listing.
pub open spec fn zip_entries(b: Seq<u8>) -> Result<Seq<ItemView>, ReadError> {
    entries_from(zip_listing(b).0, zip_listing(b).1)
}

/// A zip archive held as the stream it is stored in.
#[derive(Debug)]
pub struct ZipContainer {
    reader: ByteSource,
}

impl View for ZipContainer {
    type V = Seq<u8>;

    closed spec fn view(&self) -> Seq<u8> {
        self.reader@
    }
}

impl ZipContainer {
    /// A zip archive read from `reader`.
    pub fn new(reader: ByteSource) -> (r: Self)
        ensures
            r@ == reader@,
    {
        ZipContainer { reader }
    }
}

impl Container for ZipContainer {
    open spec fn listing(&self) -> Result<Seq<ItemView>, ReadError> {
        zip_entries(self@)
    }

    fn items(self) -> (r: Result<Vec<FileItem>, ReadError>) {
        let data = self.reader.read_to_end();
        let (records, failed) = zip_records(data.as_slice());
        entries_of(records, failed)
    }
}

} // verus!
