//! The container classifier and what archive entries look like.
use vstd::prelude::*;

use crate::error::ReadError;
use crate::peekable::Peekable;
use crate::source::ByteSource;
use crate::stream::{codec_of, lemma_codec_window, window, Codec, StreamKind};
use crate::tar_container::TarContainer;
use crate::zip_container::ZipContainer;

verus! {

/// Lookahead that is enough to see the tar signature: "ustar" at offset 257,
/// five bytes long, ends at 262.
pub const ARCHIVE_BUF_SIZE: usize = 262;

/// What an entry is.
#[derive(Clone, Copy, Debug, PartialEq, Eq, Structural)]
pub enum FileKind {
    File,
    Directory,
    Other,
}

impl FileKind {
    pub fn is_file(&self) -> (r: bool)
        ensures
            r == (*self == FileKind::File),
    {
        match self {
            FileKind::File => true,
            _ => false,
        }
    }

    pub fn is_directory(&self) -> (r: bool)
        ensures
            r == (*self == FileKind::Directory),
    {
        match self {
            FileKind::Directory => true,
            _ => false,
        }
    }

    pub fn is_other(&self) -> (r: bool)
        ensures
            r == (*self == FileKind::Other),
    {
        match self {
            FileKind::Other => true,
            _ => false,
        }
    }
}

/// The most specific size known of an item's content.
#[derive(Clone, Copy, Debug, PartialEq, Eq, Structural)]
pub enum SizeHint {
    /// The content has exactly this many bytes.
    Exact(u64),
    /// The content was compressed, and the compressed form had this many bytes.
    CompressedSize(u64),
    Unknown,
}

/// The hint once a compression layer has been removed: an exact size now
/// describes the compressed form.
pub open spec fn downgraded(h: SizeHint) -> SizeHint {
    match h {
        SizeHint::Exact(n) => SizeHint::CompressedSize(n),
        _ => h,
    }
}

impl SizeHint {
    /// The hint once a compression layer has been removed.
    pub fn downgrade(self) -> (r: SizeHint)
        ensures
            r == downgraded(self),
    {
        match self {
            SizeHint::Exact(n) => SizeHint::CompressedSize(n),
            _ => self,
        }
    }
}

/// An item handed to a caller: its path, kind, size hint and content.
#[derive(Debug)]
pub struct FileItem {
    pub path: String,
    pub reader: ByteSource,
    pub kind: FileKind,
    pub size_hint: SizeHint,
}

/// What an item holds, as plain values.
pub struct ItemView {
    pub path: Seq<char>,
    pub kind: FileKind,
    pub size_hint: SizeHint,
    pub content: Seq<u8>,
}

impl View for FileItem {
    type V = ItemView;

    open spec fn view(&self) -> ItemView {
        ItemView {
            path: self.path@,
            kind: self.kind,
            size_hint: self.size_hint,
            content: self.reader@,
        }
    }
}

/// `child` appended to `parent` as one more path level.
pub open spec fn join_path(parent: Seq<char>, child: Seq<char>) -> Seq<char> {
    if parent.len() == 0 {
        child
    } else if parent.last() == '/' {
        parent + child
    } else {
        parent + seq!['/'] + child
    }
}

/// How a path component moves: `..` one level up, `.` and the empty
/// component nowhere, any other one level down.
pub open spec fn step_of(c: Seq<char>) -> int {
    if c == seq!['.', '.'] {
        -1
    } else if c.len() == 0 || c == seq!['.'] {
        0
    } else {
        1
    }
}

/// Whether the rest `p` of a path never climbs above where the path
/// starts, `cur` being the part of the current component read so far and
/// `depth` the number of levels already below the start.
pub open spec fn stays_below(p: Seq<char>, cur: Seq<char>, depth: int) -> bool
    decreases p.len(),
{
    if p.len() == 0 {
        depth + step_of(cur) >= 0
    } else if p[0] == '/' {
        depth + step_of(cur) >= 0 && stays_below(p.drop_first(), Seq::empty(), depth + step_of(cur))
    } else {
        stays_below(p.drop_first(), cur.push(p[0]), depth)
    }
}

/// A path that resolves below the directory it is joined to: not absolute,
/// and no `..` component climbs above its start.
pub open spec fn safe_relative(p: Seq<char>) -> bool {
    !(p.len() > 0 && p[0] == '/') && stays_below(p, Seq::empty(), 0)
}

/// How the component `p[start..end]` moves, as `step_of` says.
fn component_step(p: &str, start: usize, end: usize) -> (r: i8)
    requires
        start <= end <= p@.len(),
    ensures
        r as int == step_of(p@.subrange(start as int, end as int)),
{
    let ghost c = p@.subrange(start as int, end as int);
    if end - start == 2 && p.get_char(start) == '.' && p.get_char(start + 1) == '.' {
        assert(c =~= seq!['.', '.']);
        -1
    } else if end - start == 0 {
        assert(c.len() == 0);
        0
    } else if end - start == 1 && p.get_char(start) == '.' {
        assert(c =~= seq!['.']);
        0
    } else {
        assert(c != seq!['.', '.'] && c != seq!['.']) by {
            if c.len() == 2 {
                assert(c[0] == p@[start as int] && c[1] == p@[start + 1]);
            }
            if c.len() == 1 {
                assert(c[0] == p@[start as int]);
            }
        }
        1
    }
}

/// Whether `p` resolves below the directory it is joined to.
pub fn is_safe_relative(p: &str) -> (r: bool)
    ensures
        r == safe_relative(p@),
{
    let n = p.unicode_len();
    if n > 0 && p.get_char(0) == '/' {
        return false;
    }
    proof {
        assert(p@.skip(0) =~= p@);
        assert(p@.subrange(0, 0) =~= Seq::<char>::empty());
    }
    let mut depth: usize = 0;
    let mut start: usize = 0;
    let mut i: usize = 0;
    while i < n
        invariant
            n == p@.len(),
            start <= i <= n,
            depth <= i,
            safe_relative(p@) == stays_below(p@.skip(i as int), p@.subrange(start as int, i as int), depth as int),
        decreases n - i,
    {
        let ghost rest = p@.skip(i as int);
        let ghost cur = p@.subrange(start as int, i as int);
        assert(rest[0] == p@[i as int]);
        assert(rest.drop_first() =~= p@.skip(i + 1));
        if p.get_char(i) == '/' {
            let step = component_step(p, start, i);
            if step < 0 && depth == 0 {
                return false;
            }
            if step < 0 {
                depth -= 1;
            } else if step > 0 {
                depth += 1;
            }
            start = i + 1;
            assert(p@.subrange(start as int, start as int) =~= Seq::<char>::empty());
        } else {
            assert(cur.push(p@[i as int]) =~= p@.subrange(start as int, i + 1));
        }
        i += 1;
    }
    proof {
        assert(p@.skip(n as int) =~= Seq::<char>::empty());
    }
    let step = component_step(p, start, n);
    if step < 0 {
        depth > 0
    } else {
        true
    }
}

/// `child` appended to `parent` as one more path level.
pub fn join(parent: &str, child: &str) -> (r: String)
    ensures
        r@ == join_path(parent@, child@),
{
    let n = parent.unicode_len();
    let mut r = parent.to_owned();
    if n > 0 && parent.get_char(n - 1) != '/' {
        r.append("/");
        proof {
            reveal_strlit("/");
        }
    }
    r.append(child);
    r
}

/// The tar signature "ustar" at offset 257.
pub open spec fn tar_magic(b: Seq<u8>) -> bool {
    b.len() > 261 && b[257] == 0x75u8 && b[258] == 0x73u8 && b[259] == 0x74u8 && b[260] == 0x61u8
        && b[261] == 0x72u8
}

/// What infer::archive::is_zip accepts: "PK" then 03 04, 05 06 or 07 08,
/// or the spanned-archive marker "PK00" followed by "PK" 03 04.
pub open spec fn infer_zip_magic(b: Seq<u8>) -> bool {
    b.len() > 3 && b[0] == 0x50u8 && b[1] == 0x4Bu8 && ((b[2] == 0x03u8 && b[3] == 0x04u8) || (
    b[2] == 0x05u8 && b[3] == 0x06u8) || (b[2] == 0x07u8 && b[3] == 0x08u8) || (b.len() > 7 && b[2]
        == 0x30u8 && b[3] == 0x30u8 && b[4] == 0x50u8 && b[5] == 0x4Bu8 && b[6] == 0x03u8 && b[7]
        == 0x04u8))
}

/// The zip local file header signature "PK" 03 04 at the start.
pub open spec fn zip_magic(b: Seq<u8>) -> bool {
    b.len() >= 4 && b[0] == 0x50u8 && b[1] == 0x4Bu8 && b[2] == 0x03u8 && b[3] == 0x04u8
}

/// Whether `buf` starts with a zip local file header.
pub fn is_zip_local_header(buf: &[u8]) -> (r: bool)
    ensures
        r == zip_magic(buf@),
{
    infer::archive::is_zip(buf) && buf.len() >= 4 && buf[2] == 0x03 && buf[3] == 0x04
}

/// Relies on infer::archive::is_tar: a fixed byte comparison on `buf`.
pub assume_specification[ infer::archive::is_tar ](buf: &[u8]) -> (r: bool)
    ensures
        r == tar_magic(buf@),
;

/// Relies on infer::archive::is_zip: a fixed byte comparison on `buf`.
pub assume_specification[ infer::archive::is_zip ](buf: &[u8]) -> (r: bool)
    ensures
        r == infer_zip_magic(buf@),
;

/// What one round of classification finds at the start of a stream.
#[derive(Clone, Copy, Debug, PartialEq, Eq, Structural)]
pub enum Layer {
    Compressed(Codec),
    Tar,
    Zip,
    Plain,
}

/// The layer that starts `b`: a compression signature first, then an
/// archive signature, else plain data.
pub open spec fn layer_of(b: Seq<u8>) -> Layer {
    match codec_of(b) {
        Some(c) => Layer::Compressed(c),
        None => if tar_magic(b) {
            Layer::Tar
        } else if zip_magic(b) {
            Layer::Zip
        } else {
            Layer::Plain
        },
    }
}

/// A lookahead of `ARCHIVE_BUF_SIZE` bytes decides the layer as the whole stream would.
pub proof fn lemma_layer_window(b: Seq<u8>)
    ensures
        codec_of(window(b, ARCHIVE_BUF_SIZE as nat)) == codec_of(b),
        tar_magic(window(b, ARCHIVE_BUF_SIZE as nat)) == tar_magic(b),
        zip_magic(window(b, ARCHIVE_BUF_SIZE as nat)) == zip_magic(b),
{
    let w = window(b, ARCHIVE_BUF_SIZE as nat);
    lemma_codec_window(b, ARCHIVE_BUF_SIZE as nat);
    if b.len() <= ARCHIVE_BUF_SIZE {
        assert(w =~= b);
    } else {
        assert(w.len() == ARCHIVE_BUF_SIZE);
        assert(forall|i: int| 0 <= i < ARCHIVE_BUF_SIZE ==> w[i] == b[i]);
    }
}

/// An archive, not yet read.
#[derive(Debug)]
pub enum ArchiveKind {
    Tar(TarContainer),

    Zip(ZipContainer),
}

/// A stream classified by its first bytes.
#[derive(Debug)]
pub enum ContainerKind {
    Stream(StreamKind<ARCHIVE_BUF_SIZE>),
    Archive(ArchiveKind),
}

impl ArchiveKind {
    /// The entries the archive lists, or the error that stops the listing.
    pub open spec fn listing(&self) -> Result<Seq<ItemView>, ReadError> {
        match self {
            ArchiveKind::Tar(t) => t.listing(),
            ArchiveKind::Zip(z) => z.listing(),
        }
    }
}

impl View for ContainerKind {
    type V = Seq<u8>;

    /// The bytes of the stream, from its start.
    open spec fn view(&self) -> Seq<u8> {
        match self {
            ContainerKind::Stream(StreamKind::Compressed(c)) => c@,
            ContainerKind::Stream(StreamKind::Raw(r)) => r@,
            ContainerKind::Archive(ArchiveKind::Tar(t)) => t@,
            ContainerKind::Archive(ArchiveKind::Zip(z)) => z@,
        }
    }
}

impl ContainerKind {
    /// The layer this classification stands for.
    pub open spec fn layer(&self) -> Layer {
        match self {
            ContainerKind::Stream(StreamKind::Compressed(c)) => Layer::Compressed(c.codec()),
            ContainerKind::Stream(StreamKind::Raw(_)) => Layer::Plain,
            ContainerKind::Archive(ArchiveKind::Tar(_)) => Layer::Tar,
            ContainerKind::Archive(ArchiveKind::Zip(_)) => Layer::Zip,
        }
    }

    /// Reads ahead of `reader` and classifies it: compressed, a tar or zip
    /// archive, or plain data. Never fails.
    pub fn from_reader(reader: ByteSource) -> (r: ContainerKind)
        ensures
            r.layer() == layer_of(reader@),
            r@ == reader@,
    {
        let peekable: Peekable<ARCHIVE_BUF_SIZE> = Peekable::new(reader);
        proof {
            lemma_layer_window(reader@);
        }
        match StreamKind::from_peekable(peekable) {
            StreamKind::Compressed(c) => ContainerKind::Stream(StreamKind::Compressed(c)),
            StreamKind::Raw(r) => {
                let buf = r.peek_buf();
                if infer::archive::is_tar(buf) {
                    ContainerKind::Archive(ArchiveKind::Tar(TarContainer::new(r.into_source())))
                } else if is_zip_local_header(buf) {
                    ContainerKind::Archive(ArchiveKind::Zip(ZipContainer::new(r.into_source())))
                } else {
                    ContainerKind::Stream(StreamKind::Raw(r))
                }
            },
        }
    }
}

/// The views of a sequence of items.
pub open spec fn views(v: Seq<FileItem>) -> Seq<ItemView> {
    v.map_values(|x: FileItem| x@)
}

/// The views of a result that carries items.
pub open spec fn result_views(r: Result<Vec<FileItem>, ReadError>) -> Result<Seq<ItemView>, ReadError> {
    match r {
        Ok(v) => Ok(views(v@)),
        Err(e) => Err(e),
    }
}

/// One record of an archive as its parser reads it: the path (`None` where
/// the parser already judged it unsafe), whether the record is a regular
/// file, whether it is a directory, the declared size and the content.
pub struct RawRecord {
    pub path: Option<String>,
    pub is_file: bool,
    pub is_dir: bool,
    pub size: u64,
    pub content: Vec<u8>,
}

impl View for RawRecord {
    type V = (Option<Seq<char>>, bool, bool, u64, Seq<u8>);

    open spec fn view(&self) -> (Option<Seq<char>>, bool, bool, u64, Seq<u8>) {
        (
            match self.path {
                Some(p) => Some(p@),
                None => None,
            },
            self.is_file,
            self.is_dir,
            self.size,
            self.content@,
        )
    }
}

/// The views of a sequence of records.
pub open spec fn records_view(v: Seq<RawRecord>) -> Seq<(Option<Seq<char>>, bool, bool, u64, Seq<u8>)> {
    v.map_values(|x: RawRecord| x@)
}

/// The kind of a record: a regular file, else a directory, else other.
pub open spec fn kind_of(is_file: bool, is_dir: bool) -> FileKind {
    if is_file {
        FileKind::File
    } else if is_dir {
        FileKind::Directory
    } else {
        FileKind::Other
    }
}

/// The entry a record stands for, `None` where its path is not safe.
pub open spec fn item_of(r: (Option<Seq<char>>, bool, bool, u64, Seq<u8>)) -> Option<ItemView> {
    match r.0 {
        Some(p) => if safe_relative(p) {
            Some(ItemView { path: p, kind: kind_of(r.1, r.2), size_hint: SizeHint::Exact(r.3), content: r.4 })
        } else {
            None
        },
        None => None,
    }
}

/// The entries that the records `recs` stand for: `UnsafePath` where one
/// of them has a path that is not safe, else `MalformedEntry` where the
/// parser stopped on an error, else every entry in stored order.
pub open spec fn entries_from(recs: Seq<(Option<Seq<char>>, bool, bool, u64, Seq<u8>)>, failed: bool) -> Result<
    Seq<ItemView>,
    ReadError,
> {
    if exists|i: int| 0 <= i < recs.len() && (#[trigger] item_of(recs[i])) is None {
        Err(ReadError::UnsafePath)
    } else if failed {
        Err(ReadError::MalformedEntry)
    } else {
        Ok(recs.map_values(|r: (Option<Seq<char>>, bool, bool, u64, Seq<u8>)| item_of(r)->Some_0))
    }
}

/// Turns the records an archive parser read into entries; `failed` says
/// whether the parser stopped on an error.
pub fn entries_of(records: Vec<RawRecord>, failed: bool) -> (r: Result<Vec<FileItem>, ReadError>)
    ensures
        result_views(r) == entries_from(records_view(records@), failed),
{
    let ghost recs = records_view(records@);
    let n = records.len();
    let mut stored = records;
    // Reversed, so that popping takes the records in stored order.
    let mut stack: Vec<RawRecord> = Vec::new();
    while stored.len() > 0
        invariant
            stored.len() + stack.len() == n,
            n == recs.len(),
            recs == records_view(records@),
            forall|j: int| 0 <= j < stored.len() ==> #[trigger] stored[j]@ == recs[j],
            forall|j: int| 0 <= j < stack.len() ==> #[trigger] stack[j]@ == recs[n - 1 - j],
        decreases stored.len(),
    {
        let rec = stored.pop().unwrap();
        stack.push(rec);
    }
    let mut out: Vec<FileItem> = Vec::new();
    while stack.len() > 0
        invariant
            n == recs.len(),
            recs == records_view(records@),
            stack.len() <= n,
            forall|j: int| 0 <= j < stack.len() ==> #[trigger] stack[j]@ == recs[n - 1 - j],
            forall|j: int| 0 <= j < n - stack.len() ==> (#[trigger] item_of(recs[j])) is Some,
            views(out@) =~= recs.take(n - stack.len()).map_values(
                |x: (Option<Seq<char>>, bool, bool, u64, Seq<u8>)| item_of(x)->Some_0,
            ),
        decreases stack.len(),
    {
        let ghost k = n - stack.len();
        let rec = stack.pop().unwrap();
        assert(rec@ == recs[k]);
        let RawRecord { path, is_file, is_dir, size, content } = rec;
        let path = match path {
            Some(p) => p,
            None => {
                assert(item_of(recs[k]) is None);
                assert(entries_from(recs, failed) == Err::<Seq<ItemView>, ReadError>(ReadError::UnsafePath));
                return Err(ReadError::UnsafePath);
            },
        };
        if !is_safe_relative(path.as_str()) {
            assert(item_of(recs[k]) is None);
            assert(entries_from(recs, failed) == Err::<Seq<ItemView>, ReadError>(ReadError::UnsafePath));
            return Err(ReadError::UnsafePath);
        }
        let kind = if is_file {
            FileKind::File
        } else if is_dir {
            FileKind::Directory
        } else {
            FileKind::Other
        };
        let ghost before = views(out@);
        assert(before.len() == k);
        out.push(FileItem { path, reader: ByteSource::new(content), kind, size_hint: SizeHint::Exact(size) });
        proof {
            assert(views(out@) =~= before.push(out@[k]@));
            assert(recs.take(k + 1) =~= recs.take(k).push(recs[k]));
        }
    }
    proof {
        assert(recs.take(n as int) =~= recs);
        assert(!exists|i: int| 0 <= i < recs.len() && (#[trigger] item_of(recs[i])) is None);
    }
    if failed {
        Err(ReadError::MalformedEntry)
    } else {
        proof {
            assert(views(out@) =~= recs.map_values(
                |x: (Option<Seq<char>>, bool, bool, u64, Seq<u8>)| item_of(x)->Some_0,
            ));
        }
        Ok(out)
    }
}

/// An archive whose entries can be listed.
pub trait Container: Sized {
    /// The entries of the archive as plain values, in stored order, or the
    /// error that stops the listing.
    spec fn listing(&self) -> Result<Seq<ItemView>, ReadError>;

    /// The entries, in the order in which they are stored. An entry that
    /// cannot be read, or whose path is not safe, fails the whole listing.
    fn items(self) -> (r: Result<Vec<FileItem>, ReadError>)
        ensures
            result_views(r) == self.listing(),
    ;
}

} // verus!
