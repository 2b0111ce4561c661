//! The recursive walker and the shallow iterator.
use vstd::prelude::*;

use crate::container::{
    downgraded, join, join_path, layer_of, result_views, views, ArchiveKind, Container,
    ContainerKind, FileItem, FileKind, ItemView, Layer, SizeHint,
};
use crate::error::ReadError;
use crate::source::ByteSource;
use crate::stream::{decoded, StreamKind};
use crate::tar_container::tar_entries;
use crate::zip_container::zip_entries;

verus! {

/// How many layers a traversal may enter: in effect no limit.
pub const UNLIMITED_DEPTH: u64 = 0xFFFF_FFFF_FFFF_FFFF;

/// Where peeling compression layers off a stream ends.
pub enum Peel {
    /// A layer that is no compression: an archive or plain data, with its
    /// bytes, the size hint that reaches it and the fuel that is left.
    Done { layer: Layer, data: Seq<u8>, hint: SizeHint, fuel: nat },
    /// A compression layer did not decode, or there were more layers than `fuel`.
    Failed(ReadError),
}

/// Peels compression layers off `b`, at most `fuel` of them, downgrading
/// the size hint once per layer.
pub open spec fn peel(b: Seq<u8>, hint: SizeHint, fuel: nat) -> Peel
    decreases fuel,
{
    match layer_of(b) {
        Layer::Compressed(c) => if fuel == 0 {
            Peel::Failed(ReadError::TooDeep)
        } else {
            match decoded(c, b) {
                Some(d) => peel(d, downgraded(hint), (fuel - 1) as nat),
                None => Peel::Failed(ReadError::Decompress(c)),
            }
        },
        l => Peel::Done { layer: l, data: b, hint, fuel },
    }
}

/// Peeling never hands back more fuel than it was given.
pub proof fn lemma_peel_fuel(b: Seq<u8>, hint: SizeHint, fuel: nat)
    ensures
        peel(b, hint, fuel) matches Peel::Done { fuel: left, .. } ==> left <= fuel,
    decreases fuel,
{
    if let Layer::Compressed(c) = layer_of(b) {
        if fuel > 0 {
            if let Some(d) = decoded(c, b) {
                lemma_peel_fuel(d, downgraded(hint), (fuel - 1) as nat);
            }
        }
    }
}

/// The entries that the archive `d` lists, read as `layer` says.
pub open spec fn archive_listing(layer: Layer, d: Seq<u8>) -> Result<Seq<ItemView>, ReadError> {
    match layer {
        Layer::Tar => tar_entries(d),
        Layer::Zip => zip_entries(d),
        _ => Err(ReadError::MalformedEntry),
    }
}

/// What walking the stream `data`, found at `path`, yields with `depth`
/// layers to go: where plain data lies under the compression layers, that
/// one leaf; where an archive lies there, the leaves of its entries in
/// stored order, each entry walked at its joined path; else the first error.
pub open spec fn walk(
    path: Seq<char>,
    kind: FileKind,
    hint: SizeHint,
    data: Seq<u8>,
    depth: nat,
) -> Result<Seq<ItemView>, ReadError>
    decreases depth, 0nat, 0nat,
{
    match peel(data, hint, depth) {
        Peel::Failed(e) => Err(e),
        Peel::Done { layer, data: d, hint: h, fuel } => if layer == Layer::Plain {
            Ok(seq![ItemView { path, kind, size_hint: h, content: d }])
        } else if 0 < fuel <= depth {
            match archive_listing(layer, d) {
                Ok(entries) => walk_entries(path, entries, (fuel - 1) as nat, entries.len()),
                Err(e) => Err(e),
            }
        } else {
            Err(ReadError::TooDeep)
        },
    }
}

/// What walking the first `n` of `entries`, listed by an archive at
/// `path`, yields: their leaves one after another, or the first error.
pub open spec fn walk_entries(path: Seq<char>, entries: Seq<ItemView>, depth: nat, n: nat) -> Result<
    Seq<ItemView>,
    ReadError,
>
    decreases depth, 1nat, n,
{
    if n == 0 {
        Ok(Seq::empty())
    } else {
        match walk_entries(path, entries, depth, (n - 1) as nat) {
            Ok(before) => {
                let e = entries[n - 1];
                match walk(join_path(path, e.path), e.kind, e.size_hint, e.content, depth) {
                    Ok(leaves) => Ok(before + leaves),
                    Err(x) => Err(x),
                }
            },
            Err(x) => Err(x),
        }
    }
}

/// Once walking the first `m` entries fails, walking more fails the same way.
proof fn lemma_walk_entries_err(path: Seq<char>, entries: Seq<ItemView>, depth: nat, m: nat, n: nat)
    requires
        m <= n,
        walk_entries(path, entries, depth, m) is Err,
    ensures
        walk_entries(path, entries, depth, n) == walk_entries(path, entries, depth, m),
    decreases n,
{
    if n > m {
        lemma_walk_entries_err(path, entries, depth, m, (n - 1) as nat);
    }
}

/// Whether `p` lies below `root`: `root` joined with a further path.
pub open spec fn below(root: Seq<char>, p: Seq<char>) -> bool {
    join_path(root, Seq::empty()).is_prefix_of(p)
}

/// Whether `p` is `root` itself or lies below it.
pub open spec fn descends(root: Seq<char>, p: Seq<char>) -> bool {
    p == root || below(root, p)
}

/// A path joined to `root` lies below it, and so does anything that
/// descends from that path.
pub proof fn lemma_join_below(root: Seq<char>, child: Seq<char>, p: Seq<char>)
    requires
        descends(join_path(root, child), p),
    ensures
        below(root, p),
{
    let e = Seq::<char>::empty();
    let j = join_path(root, child);
    assert(join_path(root, e).is_prefix_of(j)) by {
        if root.len() == 0 {
        } else if root.last() == '/' {
            assert(root + e =~= root);
            assert(j.subrange(0, root.len() as int) =~= root);
        } else {
            assert(root + seq!['/'] + e =~= root + seq!['/']);
            assert(j.subrange(0, root.len() + 1 as int) =~= root + seq!['/']);
        }
    }
    assert(j.is_prefix_of(join_path(j, e))) by {
        if j.len() == 0 {
        } else if j.last() == '/' {
            assert(j + e =~= j);
        } else {
            assert((j + seq!['/'] + e).subrange(0, j.len() as int) =~= j);
        }
    }
    if p != j {
        assert(join_path(root, e).is_prefix_of(p)) by {
            let a = join_path(root, e);
            let jj = join_path(j, e);
            assert(p.subrange(0, a.len() as int) =~= p.subrange(0, jj.len() as int).subrange(
                0,
                a.len() as int,
            ));
            assert(jj.subrange(0, a.len() as int) =~= jj.subrange(0, j.len() as int).subrange(
                0,
                a.len() as int,
            ));
        }
    }
}

/// Walks the stream in `source`, found at `path`: peels compression, enters
/// archives, and returns every leaf depth-first in stored order.
fn read_recursive_inner(
    path: &str,
    kind: FileKind,
    hint: SizeHint,
    source: ByteSource,
    depth: u64,
) -> (r: Result<Vec<FileItem>, ReadError>)
    ensures
        result_views(r) == walk(path@, kind, hint, source@, depth as nat),
    decreases depth, 1nat,
{
    let ghost data = source@;
    let container = ContainerKind::from_reader(source);
    match container {
        ContainerKind::Stream(StreamKind::Raw(r)) => {
            let mut leaves: Vec<FileItem> = Vec::new();
            leaves.push(
                FileItem { path: path.to_owned(), reader: r.into_source(), kind, size_hint: hint },
            );
            proof {
                assert(views(leaves@) =~= seq![leaves@[0]@]);
            }
            Ok(leaves)
        },
        ContainerKind::Stream(StreamKind::Compressed(c)) => {
            if depth == 0 {
                return Err(ReadError::TooDeep);
            }
            match c.decompress() {
                Ok(d) => {
                    let ghost inner = d@;
                    let r = read_recursive_inner(path, kind, hint.downgrade(), d, depth - 1);
                    proof {
                        lemma_compressed_layer(path@, kind, hint, data, inner, depth as nat);
                    }
                    r
                },
                Err(e) => Err(e),
            }
        },
        ContainerKind::Archive(a) => {
            let r = handle_container(path, a, depth);
            proof {
                assert(peel(data, hint, depth as nat) == Peel::Done {
                    layer: layer_of(data),
                    data,
                    hint,
                    fuel: depth as nat,
                });
            }
            r
        },
    }
}

/// Walks every entry of `archive`, found at `path`, in stored order.
fn handle_container(path: &str, archive: ArchiveKind, depth: u64) -> (r: Result<
    Vec<FileItem>,
    ReadError,
>)
    ensures
        result_views(r) == if depth == 0 {
            Err(ReadError::TooDeep)
        } else {
            match archive.listing() {
                Ok(entries) => walk_entries(path@, entries, (depth - 1) as nat, entries.len()),
                Err(e) => Err(e),
            }
        },
    decreases depth, 0nat,
{
    if depth == 0 {
        return Err(ReadError::TooDeep);
    }
    let listed = match archive {
        ArchiveKind::Tar(t) => t.items(),
        ArchiveKind::Zip(z) => z.items(),
    };
    let mut stored = match listed {
        Ok(v) => v,
        Err(e) => return Err(e),
    };
    let ghost entries = views(stored@);
    assert(archive.listing() == Ok::<Seq<ItemView>, ReadError>(entries));
    let n = stored.len();
    // Reversed, so that popping takes the entries in stored order.
    let mut items: Vec<FileItem> = Vec::new();
    while stored.len() > 0
        invariant
            stored.len() + items.len() == n,
            n == entries.len(),
            forall|j: int| 0 <= j < stored.len() ==> #[trigger] stored[j]@ == entries[j],
            forall|j: int| 0 <= j < items.len() ==> #[trigger] items[j]@ == entries[n - 1 - j],
        decreases stored.len(),
    {
        let item = stored.pop().unwrap();
        items.push(item);
    }
    let mut leaves: Vec<FileItem> = Vec::new();
    proof {
        assert(views(leaves@) =~= Seq::<ItemView>::empty());
    }
    while items.len() > 0
        invariant
            depth > 0,
            n == entries.len(),
            archive.listing() == Ok::<Seq<ItemView>, ReadError>(entries),
            items.len() <= n,
            forall|j: int| 0 <= j < items.len() ==> #[trigger] items[j]@ == entries[n - 1 - j],
            walk_entries(path@, entries, (depth - 1) as nat, (n - items.len()) as nat) == Ok::<
                Seq<ItemView>,
                ReadError,
            >(views(leaves@)),
        decreases items.len(),
    {
        let ghost k = n - items.len();
        let item = items.pop().unwrap();
        assert(item@ == entries[k]);
        let child = join(path, item.path.as_str());
        let sub = read_recursive_inner(child.as_str(), item.kind, item.size_hint, item.reader, depth - 1);
        let mut sub = match sub {
            Ok(v) => v,
            Err(e) => {
                proof {
                    assert(walk(child@, entries[k].kind, entries[k].size_hint, entries[k].content, (depth - 1) as nat)
                        == Err::<Seq<ItemView>, ReadError>(e));
                    assert(walk_entries(path@, entries, (depth - 1) as nat, (k + 1) as nat)
                        == Err::<Seq<ItemView>, ReadError>(e));
                    lemma_walk_entries_err(path@, entries, (depth - 1) as nat, (k + 1) as nat, n as nat);
                }
                return Err(e);
            },
        };
        let ghost before = views(leaves@);
        let ghost added = views(sub@);
        leaves.append(&mut sub);
        proof {
            assert(views(leaves@) =~= before + added);
        }
    }
    Ok(leaves)
}

/// Walks the stream in `source`, rooted at `path`: peels every compression
/// layer, enters every archive, nested ones included, and returns the leaves
/// depth-first in the order they are stored, each with its joined path.
pub fn recursive_read(path: &str, source: ByteSource) -> (r: Result<Vec<FileItem>, ReadError>)
    ensures
        result_views(r) == walk(path@, FileKind::File, SizeHint::Unknown, source@, UNLIMITED_DEPTH as nat),
{
    read_recursive_inner(path, FileKind::File, SizeHint::Unknown, source, UNLIMITED_DEPTH)
}

/// What the shallow iterator yields for `data`: the first error peeling,
/// `NotAnArchive` where plain data lies under the compression layers, else
/// the entries of the archive there, untouched.
pub open spec fn shallow(data: Seq<u8>, depth: nat) -> Result<Seq<ItemView>, ReadError> {
    match peel(data, SizeHint::Unknown, depth) {
        Peel::Failed(e) => Err(e),
        Peel::Done { layer, data: d, .. } => if layer == Layer::Plain {
            Err(ReadError::NotAnArchive)
        } else {
            archive_listing(layer, d)
        },
    }
}

/// Peels compression off `source` until an archive is reached.
fn peel_to_archive(source: ByteSource, depth: u64) -> (r: Result<ArchiveKind, ReadError>)
    ensures
        match peel(source@, SizeHint::Unknown, depth as nat) {
            Peel::Failed(e) => r == Err::<ArchiveKind, ReadError>(e),
            Peel::Done { layer, data: d, .. } => if layer == Layer::Plain {
                r == Err::<ArchiveKind, ReadError>(ReadError::NotAnArchive)
            } else {
                r matches Ok(a) && a.listing() == archive_listing(layer, d)
            },
        },
    decreases depth,
{
    match ContainerKind::from_reader(source) {
        ContainerKind::Stream(StreamKind::Raw(_)) => Err(ReadError::NotAnArchive),
        ContainerKind::Stream(StreamKind::Compressed(c)) => {
            if depth == 0 {
                return Err(ReadError::TooDeep);
            }
            match c.decompress() {
                Ok(d) => peel_to_archive(d, depth - 1),
                Err(e) => Err(e),
            }
        },
        ContainerKind::Archive(a) => Ok(a),
    }
}

/// Peels the compression layers off `source` and, where an archive is
/// underneath, returns its entries exactly as stored: their content is
/// neither decompressed nor entered. Plain data underneath is an error.
pub fn iterate_archive(source: ByteSource) -> (r: Result<Vec<FileItem>, ReadError>)
    ensures
        result_views(r) == shallow(source@, UNLIMITED_DEPTH as nat),
{
    match peel_to_archive(source, UNLIMITED_DEPTH) {
        Ok(ArchiveKind::Tar(t)) => t.items(),
        Ok(ArchiveKind::Zip(z)) => z.items(),
        Err(e) => Err(e),
    }
}

/// Data that carries no compression or archive signature is a leaf as it
/// stands: the walker hands over exactly these bytes, with the path, kind
/// and size hint it was given.
pub proof fn lemma_plain_is_leaf(path: Seq<char>, kind: FileKind, hint: SizeHint, data: Seq<u8>, depth: nat)
    requires
        layer_of(data) == Layer::Plain,
    ensures
        walk(path, kind, hint, data, depth) == Ok::<Seq<ItemView>, ReadError>(
            seq![ItemView { path, kind, size_hint: hint, content: data }],
        ),
{
}

/// A compression layer that decodes leaves the walk as it is: walking the
/// compressed bytes is walking the decoded ones, one layer fewer to go, with
/// the size hint downgraded.
pub proof fn lemma_compressed_layer(
    path: Seq<char>,
    kind: FileKind,
    hint: SizeHint,
    data: Seq<u8>,
    inner: Seq<u8>,
    depth: nat,
)
    requires
        depth > 0,
        layer_of(data) matches Layer::Compressed(c) && decoded(c, data) == Some(inner),
    ensures
        walk(path, kind, hint, data, depth) == walk(path, kind, downgraded(hint), inner, (depth - 1) as nat),
{
    lemma_peel_fuel(inner, downgraded(hint), (depth - 1) as nat);
    assert(peel(data, hint, depth) == peel(inner, downgraded(hint), (depth - 1) as nat));
}

/// Plain data wrapped in any number of compression layers that decode is
/// still no archive: the shallow iterator fails with `NotAnArchive`.
/// `layers[0]` is the plain data and each further element decodes to the
/// one before it.
pub proof fn lemma_wrapped_plain_not_archive(layers: Seq<Seq<u8>>, depth: nat)
    requires
        layers.len() > 0,
        layers.len() <= depth + 1,
        layer_of(layers[0]) == Layer::Plain,
        forall|k: int|
            0 < k < layers.len() ==> (#[trigger] layer_of(layers[k]) matches Layer::Compressed(c)
                && decoded(c, layers[k]) == Some(layers[k - 1])),
    ensures
        shallow(layers.last(), depth) == Err::<Seq<ItemView>, ReadError>(ReadError::NotAnArchive),
{
    lemma_wrapped_plain_peels_to_plain(layers, (layers.len() - 1) as nat, SizeHint::Unknown, depth);
}

/// Peeling the top of `layers` (the element at `top`) with enough fuel ends
/// at the plain data at the bottom.
proof fn lemma_wrapped_plain_peels_to_plain(layers: Seq<Seq<u8>>, top: nat, hint: SizeHint, fuel: nat)
    requires
        top < layers.len(),
        top <= fuel,
        layer_of(layers[0]) == Layer::Plain,
        forall|k: int|
            0 < k < layers.len() ==> (#[trigger] layer_of(layers[k]) matches Layer::Compressed(c)
                && decoded(c, layers[k]) == Some(layers[k - 1])),
    ensures
        peel(layers[top as int], hint, fuel) matches Peel::Done { layer, .. } && layer == Layer::Plain,
    decreases top,
{
    if top > 0 {
        assert(layer_of(layers[top as int]) matches Layer::Compressed(c));
        lemma_wrapped_plain_peels_to_plain(layers, (top - 1) as nat, downgraded(hint), (fuel - 1) as nat);
    }
}

/// Every leaf of a walk rooted at `path` is `path` itself or lies below it:
/// each archive level adds exactly one joined path segment.
pub proof fn lemma_leaves_descend(path: Seq<char>, kind: FileKind, hint: SizeHint, data: Seq<u8>, depth: nat)
    ensures
        walk(path, kind, hint, data, depth) matches Ok(leaves) ==> forall|k: int|
            0 <= k < leaves.len() ==> descends(path, #[trigger] leaves[k].path),
    decreases depth, 0nat, 0nat,
{
    if let Peel::Done { layer, data: d, fuel, .. } = peel(data, hint, depth) {
        if layer != Layer::Plain && 0 < fuel <= depth {
            if let Ok(entries) = archive_listing(layer, d) {
                lemma_entries_below(path, entries, (fuel - 1) as nat, entries.len());
            }
        }
    }
}

/// Every leaf of the entries of an archive at `path` lies below `path`.
pub proof fn lemma_entries_below(path: Seq<char>, entries: Seq<ItemView>, depth: nat, n: nat)
    requires
        n <= entries.len(),
    ensures
        walk_entries(path, entries, depth, n) matches Ok(leaves) ==> forall|k: int|
            0 <= k < leaves.len() ==> below(path, #[trigger] leaves[k].path),
    decreases depth, 1nat, n,
{
    if n > 0 {
        lemma_entries_below(path, entries, depth, (n - 1) as nat);
        let e = entries[n - 1];
        let child = join_path(path, e.path);
        lemma_leaves_descend(child, e.kind, e.size_hint, e.content, depth);
        if let Ok(before) = walk_entries(path, entries, depth, (n - 1) as nat) {
            if let Ok(last) = walk(child, e.kind, e.size_hint, e.content, depth) {
                let all = before + last;
                assert forall|k: int| 0 <= k < all.len() implies below(path, #[trigger] all[k].path) by {
                    if k >= before.len() {
                        assert(all[k] == last[k - before.len()]);
                        lemma_join_below(path, e.path, all[k].path);
                    } else {
                        assert(all[k] == before[k]);
                    }
                }
            }
        }
    }
}

} // verus!
