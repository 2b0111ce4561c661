use anyreader::peekable::{Buf, Peekable};
use anyreader::source::ByteSource;

#[test]
fn peek_then_replay_reproduces_the_stream() {
    let data: Vec<u8> = (0u8..20).collect();
    let peekable: Peekable<8> = Peekable::new(ByteSource::from_slice(&data));
    assert_eq!(peekable.peek_buf(), &data[..8]);
    assert_eq!(peekable.peek_buf(), &data[..8]);
    let reader = peekable.into_reader();
    assert_eq!(reader.peek_buf(), &data[..8]);
    assert_eq!(reader.into_source().read_to_end(), data);
}

#[test]
fn short_input_is_no_error() {
    let peekable: Peekable<262> = Peekable::new(ByteSource::from_slice(b"abc"));
    assert_eq!(peekable.peek_buf(), b"abc");
    assert_eq!(peekable.into_reader().into_source().read_to_end(), b"abc".to_vec());
}

#[test]
fn empty_input_peeks_nothing() {
    let peekable: Peekable<8> = Peekable::new(ByteSource::from_slice(b""));
    assert!(peekable.peek_buf().is_empty());
    assert!(peekable.into_reader().into_source().read_to_end().is_empty());
}

#[test]
fn reads_cross_from_buffer_to_source() {
    let data: Vec<u8> = (0u8..12).collect();
    let peekable: Peekable<4> = Peekable::new(ByteSource::from_slice(&data));
    let mut reader = peekable.into_reader();
    let mut out = Vec::new();
    assert_eq!(reader.read(&mut out, 3), 3);
    assert_eq!(out, vec![0, 1, 2]);
    assert_eq!(reader.read(&mut out, 5), 1);
    assert_eq!(reader.read(&mut out, 5), 5);
    assert_eq!(out, (0u8..9).collect::<Vec<u8>>());
    assert_eq!(reader.read(&mut out, 0), 0);
    assert_eq!(reader.into_source().read_to_end(), vec![9, 10, 11]);
}

#[test]
fn buf_fills_to_capacity() {
    let mut buf: Buf<5> = Buf::new();
    assert!(buf.as_slice().is_empty());
    let mut source = ByteSource::from_slice(b"abcdefg");
    assert_eq!(buf.append_from_reader(&mut source), 5);
    assert_eq!(buf.as_slice(), b"abcde");
    assert_eq!(buf.append_from_reader(&mut source), 0);
    assert_eq!(source.read_to_end(), b"fg".to_vec());
}

#[test]
fn source_reads_in_order() {
    let mut source = ByteSource::new(vec![1, 2, 3]);
    assert_eq!(source.remaining(), 3);
    let mut out = Vec::new();
    assert_eq!(source.read(&mut out, 2), 2);
    assert_eq!(source.read(&mut out, 2), 1);
    assert_eq!(source.read(&mut out, 2), 0);
    assert_eq!(out, vec![1, 2, 3]);
}
