use vstd::prelude::*;

use crate::config::{Config, QuoteStyle, Terminator};

verus! {

/// The bytes written after each record.
pub open spec fn terminator_bytes(t: Terminator) -> Seq<u8> {
    match t {
        Terminator::CRLF => seq![13u8, 10u8],
        Terminator::Any(b) => seq![b],
    }
}

/// Whether a reader with this terminator takes `b` as the end of a record.
pub open spec fn ends_record(t: Terminator, b: u8) -> bool {
    match t {
        Terminator::CRLF => b == 13u8 || b == 10u8,
        Terminator::Any(x) => b == x,
    }
}

/// A byte that cannot stand in an unquoted field.
pub open spec fn is_special(cfg: Config, b: u8) -> bool {
    b == cfg.delimiter || b == cfg.quote || ends_record(cfg.terminator, b)
}

/// The field holds a delimiter, a quote byte or a terminator byte.
pub open spec fn needs_quotes(cfg: Config, f: Seq<u8>) -> bool {
    exists|i: int| 0 <= i < f.len() && is_special(cfg, #[trigger] f[i])
}

/// Whether the bytes fail to read as an integer or a floating-point number.
pub uninterp spec fn non_numeric(s: Seq<u8>) -> bool;

/// Whether the quoting style puts the field between quotes.
pub open spec fn should_quote(cfg: Config, f: Seq<u8>) -> bool {
    match cfg.quote_style {
        QuoteStyle::Always => true,
        QuoteStyle::Necessary => needs_quotes(cfg, f),
        QuoteStyle::NonNumeric => non_numeric(f),
        QuoteStyle::Never => false,
    }
}

/// The escape byte in use; a valid configuration that escapes quotes has
/// one set.
pub open spec fn escape_of(cfg: Config) -> u8 {
    match cfg.escape {
        Some(e) => e,
        None => 92u8,
    }
}

/// The inside of a quoted field: each quote byte is doubled, or preceded by
/// the escape byte; every other byte is kept.
pub open spec fn escaped(f: Seq<u8>, quote: u8, escape: u8, double_quote: bool) -> Seq<u8>
    decreases f.len(),
{
    if f.len() == 0 {
        Seq::empty()
    } else {
        let head = if f[0] == quote {
            seq![if double_quote { quote } else { escape }, quote]
        } else {
            seq![f[0]]
        };
        head + escaped(f.drop_first(), quote, escape, double_quote)
    }
}

/// The bytes of a field. `sole` says that it is the only field of its
/// record: an empty one is then written as two quotes, so that the record
/// is not read as a record of no fields.
pub open spec fn encode_field(cfg: Config, f: Seq<u8>, sole: bool) -> Seq<u8> {
    if sole && f.len() == 0 {
        seq![cfg.quote, cfg.quote]
    } else if should_quote(cfg, f) {
        seq![cfg.quote] + escaped(f, cfg.quote, escape_of(cfg), cfg.double_quote) + seq![cfg.quote]
    } else {
        f
    }
}

/// Relies on csv_core::is_non_numeric: true unless the bytes are UTF-8 that
/// parses as an `f64` or an `i128`; an empty string parses as neither.
#[verifier::external_body]
fn is_non_numeric(field: &[u8]) -> (r: bool)
    ensures
        r == non_numeric(field@),
        field@.len() == 0 ==> r,
{
    csv_core::is_non_numeric(field)
}

/// Relies on csv_core::quote: given room for twice the input, it copies the
/// whole input, writing a quote byte as two quote bytes, or as the escape
/// byte and the quote byte when `double_quote` is false, and returns how
/// many bytes it wrote.
#[verifier::external_body]
fn quote_bytes(field: &[u8], quote: u8, escape: u8, double_quote: bool, room: usize) -> (r: Vec<u8>)
    requires
        room >= 2 * field@.len(),
    ensures
        r@ == escaped(field@, quote, escape, double_quote),
{
    let mut out: Vec<u8> = vec![0u8; room];
    let (_, _, written) = csv_core::quote(field, &mut out, quote, escape, double_quote);
    out.truncate(written);
    out
}

/// Whether `b` cannot stand in an unquoted field.
pub fn is_special_byte(cfg: &Config, b: u8) -> (r: bool)
    ensures
        r == is_special(*cfg, b),
{
    let ends = match cfg.terminator {
        Terminator::CRLF => b == 13u8 || b == 10u8,
        Terminator::Any(x) => b == x,
    };
    b == cfg.delimiter || b == cfg.quote || ends
}

/// Whether the field holds a delimiter, a quote byte or a terminator byte.
pub fn field_needs_quotes(cfg: &Config, field: &[u8]) -> (r: bool)
    ensures
        r == needs_quotes(*cfg, field@),
{
    let mut i: usize = 0;
    while i < field.len()
        invariant
            i <= field@.len(),
            forall|j: int| 0 <= j < i ==> !is_special(*cfg, #[trigger] field@[j]),
        decreases field@.len() - i,
    {
        if is_special_byte(cfg, field[i]) {
            assert(is_special(*cfg, field@[i as int]));
            return true;
        }
        i = i + 1;
    }
    false
}

/// Whether the configured quoting style quotes this field.
pub fn field_should_quote(cfg: &Config, field: &[u8]) -> (r: bool)
    ensures
        r == should_quote(*cfg, field@),
{
    match cfg.quote_style {
        QuoteStyle::Always => true,
        QuoteStyle::Necessary => field_needs_quotes(cfg, field),
        QuoteStyle::NonNumeric => is_non_numeric(field),
        QuoteStyle::Never => false,
    }
}

/// Appends the bytes of one field to `buf`.
pub fn encode_field_into(cfg: &Config, field: &[u8], sole: bool, buf: &mut Vec<u8>)
    requires
        field@.len() <= isize::MAX,
    ensures
        final(buf)@ == old(buf)@ + encode_field(*cfg, field@, sole),
{
    if sole && field.len() == 0 {
        buf.push(cfg.quote);
        buf.push(cfg.quote);
        assert(final(buf)@ =~= old(buf)@ + encode_field(*cfg, field@, sole));
    } else if field_should_quote(cfg, field) {
        let esc = match cfg.escape {
            Some(e) => e,
            None => 92u8,
        };
        let mut inner = quote_bytes(field, cfg.quote, esc, cfg.double_quote, 2 * field.len());
        buf.push(cfg.quote);
        buf.append(&mut inner);
        buf.push(cfg.quote);
        assert(final(buf)@ =~= old(buf)@ + encode_field(*cfg, field@, sole));
    } else {
        let mut i: usize = 0;
        while i < field.len()
            invariant
                i <= field@.len(),
                buf@ == old(buf)@ + field@.subrange(0, i as int),
            decreases field@.len() - i,
        {
            buf.push(field[i]);
            assert(field@.subrange(0, i + 1) =~= field@.subrange(0, i as int).push(field@[i as int]));
            i = i + 1;
        }
        assert(field@.subrange(0, field@.len() as int) =~= field@);
    }
}

} // verus!
