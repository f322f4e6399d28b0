use ehttpd::bytes::data::Data;
use ehttpd::bytes::sink::Sink;
use ehttpd::bytes::source::Source;

/// A source yields its bytes one at a time and then reports the end of
/// the stream.
#[test]
fn source_reads_bytes_in_order() {
    let mut source = Source::from(Data::Static(b"ab"));
    assert_eq!(source.read_byte(), Some(b'a'));
    assert_eq!(source.read_byte(), Some(b'b'));
    assert_eq!(source.read_byte(), None);
    assert_eq!(source.read_byte(), None);
}

/// A source knows how many bytes remain, and skipping discards them.
#[test]
fn source_len_and_skip() {
    let mut source = Source::from(Data::Vec(b"abcdef".to_vec()));
    assert_eq!(source.get_len().unwrap(), Some(6));
    source.skip(2);
    assert_eq!(source.get_len().unwrap(), Some(4));
    assert_eq!(source.read_byte(), Some(b'c'));
    source.skip(100);
    assert_eq!(source.get_len().unwrap(), Some(0));
    assert_eq!(source.read_byte(), None);

    let mut empty = Source::default();
    assert_eq!(empty.get_len().unwrap(), Some(0));
    assert_eq!(empty.read_to_vec(), Vec::<u8>::new());
}

/// A vector sink records exactly what was written, in order; a discarding
/// sink records nothing.
#[test]
fn sink_records_or_discards() {
    let mut sink = Sink::Vector(Vec::new());
    sink.write_all(b"one ");
    sink.push_byte(b'2');
    sink.flush();
    assert_eq!(sink.into_vec().unwrap(), b"one 2".to_vec());

    let mut null = Sink::default();
    null.write_all(b"gone");
    assert!(null.into_vec().is_none());
}
