//! The compression classifier: recognises a codec by its signature and
//! unwraps the stream it marks.
use vstd::prelude::*;

use std::io::Read;

use crate::error::ReadError;
use crate::peekable::{min_nat, Peekable, PeekableReader};
use crate::source::ByteSource;

verus! {

/// Lookahead that is enough to see every compression signature.
pub const STREAM_BUF_SIZE: usize = 8;

/// The codecs that are recognised.
#[derive(Clone, Copy, Debug, PartialEq, Eq, Structural)]
pub enum Codec {
    Gzip,
    Zstd,
    Bzip2,
    Xz,
}

/// The two-byte gzip signature 1F 8B.
pub open spec fn gz_magic(b: Seq<u8>) -> bool {
    b.len() >= 2 && b[0] == 0x1Fu8 && b[1] == 0x8Bu8
}

/// The bzip2 signature "BZh".
pub open spec fn bz2_magic(b: Seq<u8>) -> bool {
    b.len() > 2 && b[0] == 0x42u8 && b[1] == 0x5Au8 && b[2] == 0x68u8
}

/// The xz signature FD "7zXZ" 00.
pub open spec fn xz_magic(b: Seq<u8>) -> bool {
    b.len() > 5 && b[0] == 0xFDu8 && b[1] == 0x37u8 && b[2] == 0x7Au8 && b[3] == 0x58u8
        && b[4] == 0x5Au8 && b[5] == 0x00u8
}

/// The first four bytes read as a little-endian number.
pub open spec fn le_u32_of(b: Seq<u8>) -> int {
    b[0] as int + 256 * (b[1] as int) + 65536 * (b[2] as int) + 16777216 * (b[3] as int)
}

/// The zstd frame magic, or the magic of a skippable frame (any low nibble).
pub open spec fn zstd_magic(b: Seq<u8>) -> bool {
    b.len() >= 4 && (le_u32_of(b) == 0xFD2FB528 || le_u32_of(b) - le_u32_of(b) % 16 == 0x184D2A50)
}

/// The codec whose signature starts `b`, tried in a fixed order.
pub open spec fn codec_of(b: Seq<u8>) -> Option<Codec> {
    if gz_magic(b) {
        Some(Codec::Gzip)
    } else if zstd_magic(b) {
        Some(Codec::Zstd)
    } else if bz2_magic(b) {
        Some(Codec::Bzip2)
    } else if xz_magic(b) {
        Some(Codec::Xz)
    } else {
        None
    }
}

/// The first `k` bytes of `b`, or all of them when there are fewer.
pub open spec fn window(b: Seq<u8>, k: nat) -> Seq<u8> {
    b.take(min_nat(k, b.len()) as int)
}

/// A lookahead of at least eight bytes decides the codec as the whole stream would.
pub proof fn lemma_codec_window(b: Seq<u8>, k: nat)
    requires
        k >= 8,
    ensures
        codec_of(window(b, k)) == codec_of(b),
{
    let w = window(b, k);
    if b.len() <= k {
        assert(w =~= b);
    } else {
        assert(w.len() == k);
        assert(forall|i: int| 0 <= i < k ==> w[i] == b[i]);
    }
}

/// Whether `buf` starts with the gzip signature.
pub fn is_gzip(buf: &[u8]) -> (r: bool)
    ensures
        r == gz_magic(buf@),
{
    buf.len() >= 2 && buf[0] == 0x1F && buf[1] == 0x8B
}

/// Relies on infer::archive::is_bz2: a fixed byte comparison on `buf`.
pub assume_specification[ infer::archive::is_bz2 ](buf: &[u8]) -> (r: bool)
    ensures
        r == bz2_magic(buf@),
;

/// Relies on infer::archive::is_xz: a fixed byte comparison on `buf`.
pub assume_specification[ infer::archive::is_xz ](buf: &[u8]) -> (r: bool)
    ensures
        r == xz_magic(buf@),
;

/// Magic number of a zstd frame, little-endian.
const ZSTD_MAGIC_NUMBER: u32 = 0xFD2FB528;

/// Magic number of a skippable frame, low nibble cleared.
const SKIPPABLE_FRAME_BASE: u32 = 0x184D2A50;

/// Mask that clears the low nibble of a skippable frame's magic.
const SKIPPABLE_FRAME_MASK: u32 = 0xFFFFFFF0;

/// Whether `buffer` starts with a zstd frame or a skippable frame.
pub fn is_zstd(buffer: &[u8]) -> (r: bool)
    ensures
        r == zstd_magic(buffer@),
{
    if buffer.len() < 4 {
        return false;
    }
    let b0 = buffer[0] as u32;
    let b1 = buffer[1] as u32;
    let b2 = buffer[2] as u32;
    let b3 = buffer[3] as u32;
    assert(b0 + 256 * b1 + 65536 * b2 + 16777216 * b3 <= 0xFFFF_FFFF) by (nonlinear_arith)
        requires
            b0 < 256,
            b1 < 256,
            b2 < 256,
            b3 < 256,
    ;
    let magic: u32 = b0 + 256 * b1 + 65536 * b2 + 16777216 * b3;
    assert(magic & 0xFFFFFFF0u32 == magic - magic % 16) by (bit_vector);
    magic == ZSTD_MAGIC_NUMBER || (magic & SKIPPABLE_FRAME_MASK) == SKIPPABLE_FRAME_BASE
}

/// What gzip decoding makes of `b`: the bytes of its first member, or
/// `None` where `b` is not a valid gzip stream.
pub uninterp spec fn gzip_decoded(b: Seq<u8>) -> Option<Seq<u8>>;

/// What zstd decoding makes of `b`, all frames in turn, or `None`.
pub uninterp spec fn zstd_decoded(b: Seq<u8>) -> Option<Seq<u8>>;

/// What bzip2 decoding makes of `b`, or `None`.
pub uninterp spec fn bzip2_decoded(b: Seq<u8>) -> Option<Seq<u8>>;

/// What xz decoding makes of `b`, concatenated streams in turn, or `None`.
pub uninterp spec fn xz_decoded(b: Seq<u8>) -> Option<Seq<u8>>;

/// Relies on flate2::read::GzDecoder: decodes the gzip stream held in `data`.
#[verifier::external_body]
fn gunzip(data: &[u8]) -> (r: Option<Vec<u8>>)
    ensures
        gzip_decoded(data@) == match r {
            Some(v) => Some(v@),
            None => None::<Seq<u8>>,
        },
{
    let mut out = Vec::new();
    match flate2::read::GzDecoder::new(data).read_to_end(&mut out) {
        Ok(_) => Some(out),
        Err(_) => None,
    }
}

/// Relies on zstd::stream::decode_all: decodes the zstd frames held in `data`.
#[verifier::external_body]
fn unzstd(data: &[u8]) -> (r: Option<Vec<u8>>)
    ensures
        zstd_decoded(data@) == match r {
            Some(v) => Some(v@),
            None => None::<Seq<u8>>,
        },
{
    zstd::stream::decode_all(data).ok()
}

/// Relies on bzip2::read::BzDecoder: decodes the bzip2 stream held in `data`.
#[verifier::external_body]
fn bunzip2(data: &[u8]) -> (r: Option<Vec<u8>>)
    ensures
        bzip2_decoded(data@) == match r {
            Some(v) => Some(v@),
            None => None::<Seq<u8>>,
        },
{
    let mut out = Vec::new();
    match bzip2::read::BzDecoder::new(data).read_to_end(&mut out) {
        Ok(_) => Some(out),
        Err(_) => None,
    }
}

/// Relies on liblzma::read::XzDecoder::new_multi_decoder: decodes the xz
/// streams held in `data`, one after another.
#[verifier::external_body]
fn unxz(data: &[u8]) -> (r: Option<Vec<u8>>)
    ensures
        xz_decoded(data@) == match r {
            Some(v) => Some(v@),
            None => None::<Seq<u8>>,
        },
{
    let mut out = Vec::new();
    match liblzma::read::XzDecoder::new_multi_decoder(data).read_to_end(&mut out) {
        Ok(_) => Some(out),
        Err(_) => None,
    }
}

/// What decoding `b` with `codec` gives, or `None` where it fails.
pub open spec fn decoded(codec: Codec, b: Seq<u8>) -> Option<Seq<u8>> {
    match codec {
        Codec::Gzip => gzip_decoded(b),
        Codec::Zstd => zstd_decoded(b),
        Codec::Bzip2 => bzip2_decoded(b),
        Codec::Xz => xz_decoded(b),
    }
}

/// Decodes `data` with `codec`.
pub fn decode(codec: Codec, data: &[u8]) -> (r: Result<Vec<u8>, ReadError>)
    ensures
        match decoded(codec, data@) {
            Some(d) => r matches Ok(v) && v@ == d,
            None => r == Err::<Vec<u8>, ReadError>(ReadError::Decompress(codec)),
        },
{
    let out = match codec {
        Codec::Gzip => gunzip(data),
        Codec::Zstd => unzstd(data),
        Codec::Bzip2 => bunzip2(data),
        Codec::Xz => unxz(data),
    };
    match out {
        Some(v) => Ok(v),
        None => Err(ReadError::Decompress(codec)),
    }
}

/// A compressed stream, still compressed: nothing is decoded until
/// [`CompressionKind::decompress`] is called.
#[derive(Debug)]
pub enum CompressionKind<const N: usize> {
    Gzip(PeekableReader<N>),
    Zst(PeekableReader<N>),
    Bzip2(PeekableReader<N>),
    Xz(PeekableReader<N>),
}

impl<const N: usize> View for CompressionKind<N> {
    type V = Seq<u8>;

    /// The compressed bytes.
    open spec fn view(&self) -> Seq<u8> {
        match self {
            CompressionKind::Gzip(r) => r@,
            CompressionKind::Zst(r) => r@,
            CompressionKind::Bzip2(r) => r@,
            CompressionKind::Xz(r) => r@,
        }
    }
}

impl<const N: usize> CompressionKind<N> {
    pub open spec fn spec_codec(&self) -> Codec {
        match self {
            CompressionKind::Gzip(_) => Codec::Gzip,
            CompressionKind::Zst(_) => Codec::Zstd,
            CompressionKind::Bzip2(_) => Codec::Bzip2,
            CompressionKind::Xz(_) => Codec::Xz,
        }
    }

    /// The codec of this stream.
    #[verifier::when_used_as_spec(spec_codec)]
    pub fn codec(&self) -> (c: Codec)
        ensures
            c == self.spec_codec(),
    {
        match self {
            CompressionKind::Gzip(_) => Codec::Gzip,
            CompressionKind::Zst(_) => Codec::Zstd,
            CompressionKind::Bzip2(_) => Codec::Bzip2,
            CompressionKind::Xz(_) => Codec::Xz,
        }
    }

    /// Wraps `reader` as a stream compressed with `codec`.
    pub fn wrap(codec: Codec, reader: PeekableReader<N>) -> (r: Self)
        ensures
            r.codec() == codec,
            r@ == reader@,
    {
        match codec {
            Codec::Gzip => CompressionKind::Gzip(reader),
            Codec::Zstd => CompressionKind::Zst(reader),
            Codec::Bzip2 => CompressionKind::Bzip2(reader),
            Codec::Xz => CompressionKind::Xz(reader),
        }
    }

    /// The decompressed stream.
    pub fn decompress(self) -> (r: Result<ByteSource, ReadError>)
        ensures
            match decoded(self.codec(), self@) {
                Some(d) => r matches Ok(s) && s@ == d,
                None => r == Err::<ByteSource, ReadError>(ReadError::Decompress(self.codec())),
            },
    {
        let codec = self.codec();
        let reader = match self {
            CompressionKind::Gzip(r) => r,
            CompressionKind::Zst(r) => r,
            CompressionKind::Bzip2(r) => r,
            CompressionKind::Xz(r) => r,
        };
        let data = reader.into_source().read_to_end();
        match decode(codec, data.as_slice()) {
            Ok(v) => Ok(ByteSource::new(v)),
            Err(e) => Err(e),
        }
    }
}

/// A stream classified by its first bytes: compressed with a known codec, or raw.
#[derive(Debug)]
pub enum StreamKind<const N: usize> {
    Compressed(CompressionKind<N>),
    Raw(PeekableReader<N>),
}

impl<const N: usize> StreamKind<N> {
    /// Classifies the stream by the bytes `peekable` read ahead.
    pub fn from_peekable(peekable: Peekable<N>) -> (r: StreamKind<N>)
        ensures
            match r {
                StreamKind::Compressed(c) => codec_of(peekable.peeked()) == Some(c.codec())
                    && c@ == peekable@,
                StreamKind::Raw(s) => codec_of(peekable.peeked()) is None && s@ == peekable@
                    && s.peeked() == peekable.peeked(),
            },
    {
        let buf = peekable.peek_buf();
        let codec = if is_gzip(buf) {
            Some(Codec::Gzip)
        } else if is_zstd(buf) {
            Some(Codec::Zstd)
        } else if infer::archive::is_bz2(buf) {
            Some(Codec::Bzip2)
        } else if infer::archive::is_xz(buf) {
            Some(Codec::Xz)
        } else {
            None
        };
        match codec {
            Some(c) => StreamKind::Compressed(CompressionKind::wrap(c, peekable.into_reader())),
            None => StreamKind::Raw(peekable.into_reader()),
        }
    }
}

impl StreamKind<STREAM_BUF_SIZE> {
    /// Reads ahead of `reader` and classifies it.
    pub fn from_reader(reader: ByteSource) -> (r: StreamKind<STREAM_BUF_SIZE>)
        ensures
            match r {
                StreamKind::Compressed(c) => codec_of(reader@) == Some(c.codec()) && c@ == reader@,
                StreamKind::Raw(s) => codec_of(reader@) is None && s@ == reader@,
            },
    {
        let peekable: Peekable<STREAM_BUF_SIZE> = Peekable::new(reader);
        proof {
            lemma_codec_window(reader@, STREAM_BUF_SIZE as nat);
        }
        Self::from_peekable(peekable)
    }
}

} // verus!
