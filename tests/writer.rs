use csv::{Error, QuoteStyle, Terminator, Writer, WriterBuilder};

fn rec(fields: &[&str]) -> Vec<Vec<u8>> {
    fields.iter().map(|f| f.as_bytes().to_vec()).collect()
}

fn default_writer() -> Writer {
    Writer::new(&WriterBuilder::new()).unwrap()
}

fn encode_one(b: &WriterBuilder, fields: &[&str]) -> Vec<u8> {
    let mut w = Writer::new(b).unwrap();
    w.write_record(&rec(fields)).unwrap();
    w.flush()
}

#[test]
fn default_two_records() {
    let mut w = default_writer();
    assert_eq!(w.write_record(&rec(&["a", "b"])), Ok(None));
    assert_eq!(w.write_record(&rec(&["a,b", "c"])), Ok(None));
    assert_eq!(w.flush(), b"a,b\r\n\"a,b\",c\r\n".to_vec());
}

#[test]
fn builder_defaults() {
    let b = WriterBuilder::new();
    assert_eq!(b.config.delimiter, b',');
    assert_eq!(b.config.quote, b'"');
    assert_eq!(b.config.escape, None);
    assert!(b.config.double_quote);
    assert_eq!(b.config.quote_style, QuoteStyle::Necessary);
    assert_eq!(b.config.terminator, Terminator::CRLF);
    assert_eq!(b.capacity, 8192);
    assert!(!b.flexible);
    assert!(b.has_headers);
    let d = WriterBuilder::default();
    assert_eq!(d.capacity, b.capacity);
}

#[test]
fn special_bytes_are_quoted() {
    let b = WriterBuilder::new();
    assert_eq!(encode_one(&b, &[",", "x"]), b"\",\",x\r\n".to_vec());
    assert_eq!(encode_one(&b, &["\"", "x"]), b"\"\"\"\",x\r\n".to_vec());
    assert_eq!(encode_one(&b, &["\r", "x"]), b"\"\r\",x\r\n".to_vec());
    assert_eq!(encode_one(&b, &["\n", "x"]), b"\"\n\",x\r\n".to_vec());
}

#[test]
fn plain_fields_are_not_quoted() {
    let b = WriterBuilder::new();
    assert_eq!(encode_one(&b, &["abc", "d e"]), b"abc,d e\r\n".to_vec());
    assert_eq!(encode_one(&b, &["", "x", ""]), b",x,\r\n".to_vec());
    assert_eq!(encode_one(&b, &["abc"]), b"abc\r\n".to_vec());
}

#[test]
fn quotes_are_doubled() {
    let b = WriterBuilder::new();
    assert_eq!(encode_one(&b, &["a\"b\"c"]), b"\"a\"\"b\"\"c\"\r\n".to_vec());
    assert_eq!(encode_one(&b, &["\"\"\""]), b"\"\"\"\"\"\"\"\"\r\n".to_vec());
}

#[test]
fn quotes_are_escaped() {
    let mut b = WriterBuilder::new();
    b.double_quote(false).escape(b'\\');
    assert_eq!(encode_one(&b, &["a\"b"]), b"\"a\\\"b\"\r\n".to_vec());
}

#[test]
fn sole_empty_field_is_quoted() {
    let b = WriterBuilder::new();
    assert_eq!(encode_one(&b, &[""]), b"\"\"\r\n".to_vec());
    assert_eq!(encode_one(&b, &[]), b"\r\n".to_vec());
    let mut never = WriterBuilder::new();
    never.quote_style(QuoteStyle::Never);
    assert_eq!(encode_one(&never, &[""]), b"\"\"\r\n".to_vec());
}

#[test]
fn field_count_fixed() {
    let mut w = default_writer();
    assert!(w.write_record(&rec(&["a", "b", "c"])).is_ok());
    assert!(w.write_record(&rec(&["d", "e", "f"])).is_ok());
    assert!(w.write_record(&rec(&["g", "h", "i"])).is_ok());
    let mut w = default_writer();
    assert!(w.write_record(&rec(&["a", "b", "c"])).is_ok());
    assert!(w.write_record(&rec(&["d", "e", "f"])).is_ok());
    assert_eq!(
        w.write_record(&rec(&["g", "h", "i", "j"])),
        Err(Error::UnequalLengths { expected_len: 3, len: 4 })
    );
    assert_eq!(w.flush(), b"a,b,c\r\nd,e,f\r\n".to_vec());
}

#[test]
fn field_count_flexible() {
    let mut b = WriterBuilder::new();
    b.flexible(true);
    let mut w = Writer::new(&b).unwrap();
    assert!(w.write_record(&rec(&["a", "b", "c"])).is_ok());
    assert!(w.write_record(&rec(&["d", "e", "f"])).is_ok());
    assert!(w.write_record(&rec(&["g", "h", "i", "j"])).is_ok());
    assert_eq!(w.flush(), b"a,b,c\r\nd,e,f\r\ng,h,i,j\r\n".to_vec());
}

#[test]
fn buffer_handed_on_at_capacity() {
    let mut b = WriterBuilder::new();
    b.buffer_capacity(10);
    let mut w = Writer::new(&b).unwrap();
    assert_eq!(w.write_record(&rec(&["a", "b"])), Ok(None));
    assert_eq!(w.write_record(&rec(&["c", "d"])), Ok(Some(b"a,b\r\nc,d\r\n".to_vec())));
    assert_eq!(w.write_record(&rec(&["e", "f"])), Ok(None));
    assert_eq!(w.flush(), b"e,f\r\n".to_vec());
    assert_eq!(w.flush(), Vec::<u8>::new());
}

#[test]
fn zero_capacity_hands_on_every_record() {
    let mut b = WriterBuilder::new();
    b.buffer_capacity(0);
    let mut w = Writer::new(&b).unwrap();
    assert_eq!(w.write_record(&rec(&["a"])), Ok(Some(b"a\r\n".to_vec())));
}

#[test]
fn config_errors() {
    let mut b = WriterBuilder::new();
    b.quote(b',');
    assert!(matches!(Writer::new(&b), Err(Error::QuoteIsDelimiter)));
    let mut b = WriterBuilder::new();
    b.double_quote(false);
    assert!(matches!(Writer::new(&b), Err(Error::MissingEscape)));
}

#[test]
fn non_numeric_style() {
    let mut b = WriterBuilder::new();
    b.quote_style(QuoteStyle::NonNumeric);
    assert_eq!(encode_one(&b, &["12", "1.5", "-3e2", "abc", ""]), b"12,1.5,-3e2,\"abc\",\"\"\r\n".to_vec());
}

#[test]
fn always_and_never_styles() {
    let mut b = WriterBuilder::new();
    b.quote_style(QuoteStyle::Always);
    assert_eq!(encode_one(&b, &["a", ""]), b"\"a\",\"\"\r\n".to_vec());
    let mut b = WriterBuilder::new();
    b.quote_style(QuoteStyle::Never);
    assert_eq!(encode_one(&b, &["a,b", "\""]), b"a,b,\"\r\n".to_vec());
}

#[test]
fn custom_delimiter_quote_and_terminator() {
    let mut b = WriterBuilder::new();
    b.delimiter(b';').quote(b'\'').terminator(Terminator::Any(b'\n'));
    assert_eq!(encode_one(&b, &["a;b", "c,d", "it's"]), b"'a;b';c,d;'it''s'\n".to_vec());
    assert_eq!(encode_one(&b, &["x\ry"]), b"x\ry\n".to_vec());
}

#[test]
fn field_at_a_time() {
    let mut w = default_writer();
    w.write_field(b"a");
    w.write_field(b"b,c");
    assert_eq!(w.write_record(&[]), Ok(None));
    w.write_field(b"x");
    assert_eq!(w.write_record(&rec(&["y"])), Ok(None));
    assert_eq!(w.flush(), b"a,\"b,c\"\r\nx,y\r\n".to_vec());
}

#[test]
fn field_at_a_time_sole_empty() {
    let mut b = WriterBuilder::new();
    b.flexible(true);
    let mut w = Writer::new(&b).unwrap();
    w.write_field(b"");
    assert_eq!(w.write_record(&[]), Ok(None));
    w.write_field(b"");
    w.write_field(b"");
    assert_eq!(w.write_record(&[]), Ok(None));
    assert_eq!(w.flush(), b"\"\"\r\n,\r\n".to_vec());
}

#[test]
fn field_at_a_time_count_checked() {
    let mut w = default_writer();
    assert!(w.write_record(&rec(&["a", "b"])).is_ok());
    w.write_field(b"c");
    assert_eq!(w.write_record(&[]), Err(Error::UnequalLengths { expected_len: 2, len: 1 }));
    assert_eq!(w.write_record(&rec(&["d"])), Ok(None));
    assert_eq!(w.flush(), b"a,b\r\nc,d\r\n".to_vec());
}

#[test]
fn header_written_once() {
    let mut w = default_writer();
    assert_eq!(w.write_header(&rec(&["x", "y"])), Ok(None));
    assert_eq!(w.write_header(&rec(&["x", "y"])), Ok(None));
    assert!(w.write_record(&rec(&["1", "2"])).is_ok());
    assert_eq!(w.flush(), b"x,y\r\n1,2\r\n".to_vec());
    let mut b = WriterBuilder::new();
    b.has_headers(false);
    let mut w = Writer::new(&b).unwrap();
    assert_eq!(w.write_header(&rec(&["x", "y"])), Ok(None));
    assert_eq!(w.flush(), Vec::<u8>::new());
}

#[test]
fn tricky_fields_encoded_exactly() {
    let b = WriterBuilder::new();
    let fields = ["plain", "with,comma", "with \"quote\"", "line\r\nbreak", "", "\"\""];
    assert_eq!(
        encode_one(&b, &fields),
        b"plain,\"with,comma\",\"with \"\"quote\"\"\",\"line\r\nbreak\",,\"\"\"\"\"\"\r\n".to_vec()
    );
}

#[test]
fn field_at_a_time_matches_whole_record() {
    let b = WriterBuilder::new();
    let whole = encode_one(&b, &["a", "", "b\"c", "d"]);
    let mut w = Writer::new(&b).unwrap();
    w.write_field(b"a");
    w.write_field(b"");
    assert_eq!(w.write_record(&rec(&["b\"c", "d"])), Ok(None));
    assert_eq!(w.flush(), whole);
}

#[test]
fn config_is_copied_at_build() {
    let mut b = WriterBuilder::new();
    let mut w = Writer::new(&b).unwrap();
    b.delimiter(b'\t');
    assert_eq!(w.write_record(&rec(&["a", "b"])), Ok(None));
    assert_eq!(w.flush(), b"a,b\r\n".to_vec());
    assert_eq!(encode_one(&b, &["a", "b"]), b"a\tb\r\n".to_vec());
}
