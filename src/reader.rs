//! A reader of CSV bytes, as spec functions, and the proof that it reads
//! back what the encoder writes.
use vstd::prelude::*;

use crate::config::{Config, QuoteStyle};
use crate::encode::{encode_field, ends_record, escape_of, escaped, is_special, needs_quotes, should_quote,
    terminator_bytes};
use crate::writer::{encode_record, joined};

verus! {

/// The options under which every record reads back unchanged: quotes are
/// doubled, fields are quoted where necessary (or always), and neither the
/// quote byte nor the delimiter ends a record.
pub open spec fn readable(cfg: Config) -> bool {
    &&& cfg.quote != cfg.delimiter
    &&& cfg.double_quote
    &&& !ends_record(cfg.terminator, cfg.quote)
    &&& !ends_record(cfg.terminator, cfg.delimiter)
    &&& (cfg.quote_style == QuoteStyle::Necessary || cfg.quote_style == QuoteStyle::Always)
}

/// A byte that ends an unquoted field.
pub open spec fn stops_field(cfg: Config, b: u8) -> bool {
    b == cfg.delimiter || ends_record(cfg.terminator, b)
}

/// The length of the unquoted field at the start of `s`.
pub open spec fn plain_len(cfg: Config, s: Seq<u8>) -> nat
    decreases s.len(),
{
    if s.len() == 0 || stops_field(cfg, s[0]) {
        0
    } else {
        1 + plain_len(cfg, s.drop_first())
    }
}

/// Reads a quoted field after its opening quote: the field, and how many
/// bytes it takes up to and including the closing quote.
pub open spec fn read_quoted(q: u8, s: Seq<u8>) -> (Seq<u8>, nat)
    decreases s.len(),
{
    if s.len() == 0 {
        (Seq::empty(), 0)
    } else if s[0] == q {
        if s.len() >= 2 && s[1] == q {
            let r = read_quoted(q, s.subrange(2, s.len() as int));
            (seq![q] + r.0, r.1 + 2)
        } else {
            (Seq::empty(), 1)
        }
    } else {
        let r = read_quoted(q, s.drop_first());
        (seq![s[0]] + r.0, r.1 + 1)
    }
}

/// Reads the field at the start of `s`: the field, and how many bytes it
/// takes.
#[verifier::opaque]
pub open spec fn read_field(cfg: Config, s: Seq<u8>) -> (Seq<u8>, nat) {
    if s.len() > 0 && s[0] == cfg.quote {
        let r = read_quoted(cfg.quote, s.drop_first());
        (r.0, r.1 + 1)
    } else {
        let n = plain_len(cfg, s);
        (s.take(n as int), n)
    }
}

/// Reads fields separated by the delimiter, up to the end of the record.
pub open spec fn read_fields(cfg: Config, s: Seq<u8>) -> (Seq<Seq<u8>>, nat)
    decreases s.len(),
{
    let (f, n) = read_field(cfg, s);
    if n < s.len() && s[n as int] == cfg.delimiter {
        let r = read_fields(cfg, s.subrange(n + 1 as int, s.len() as int));
        (seq![f] + r.0, n + 1 + r.1)
    } else {
        (seq![f], n)
    }
}

/// Reads one record and its terminator: a terminator alone is a record of
/// no fields.
pub open spec fn read_record(cfg: Config, s: Seq<u8>) -> (Seq<Seq<u8>>, nat) {
    let t = terminator_bytes(cfg.terminator);
    if s.len() >= t.len() && s.take(t.len() as int) == t {
        (Seq::empty(), t.len())
    } else {
        let r = read_fields(cfg, s);
        (r.0, r.1 + t.len())
    }
}

/// Reads every record of `s`.
pub open spec fn read_all(cfg: Config, s: Seq<u8>) -> Seq<Seq<Seq<u8>>>
    decreases s.len(),
{
    if s.len() == 0 {
        Seq::empty()
    } else {
        let r = read_record(cfg, s);
        if 0 < r.1 <= s.len() {
            seq![r.0] + read_all(cfg, s.subrange(r.1 as int, s.len() as int))
        } else {
            seq![r.0]
        }
    }
}

/// The bytes of the records, one after the other.
pub open spec fn encode_all(cfg: Config, rs: Seq<Seq<Seq<u8>>>) -> Seq<u8>
    decreases rs.len(),
{
    if rs.len() == 0 {
        Seq::empty()
    } else {
        encode_record(cfg, rs[0]) + encode_all(cfg, rs.drop_first())
    }
}

proof fn lemma_read_quoted(q: u8, e: u8, f: Seq<u8>, rest: Seq<u8>)
    requires
        rest.len() == 0 || rest[0] != q,
    ensures
        read_quoted(q, escaped(f, q, e, true) + seq![q] + rest) == (f, escaped(f, q, e, true).len() + 1),
    decreases f.len(),
{
    let s = escaped(f, q, e, true) + seq![q] + rest;
    if f.len() == 0 {
        assert(s =~= seq![q] + rest);
    } else {
        let tail = escaped(f.drop_first(), q, e, true);
        lemma_read_quoted(q, e, f.drop_first(), rest);
        if f[0] == q {
            assert(s =~= seq![q, q] + (tail + seq![q] + rest));
            assert(s.subrange(2, s.len() as int) =~= tail + seq![q] + rest);
        } else {
            assert(s =~= seq![f[0]] + (tail + seq![q] + rest));
            assert(s.drop_first() =~= tail + seq![q] + rest);
        }
        assert(seq![f[0]] + f.drop_first() =~= f);
    }
}

proof fn lemma_plain_len(cfg: Config, f: Seq<u8>, rest: Seq<u8>)
    requires
        forall|i: int| 0 <= i < f.len() ==> !stops_field(cfg, #[trigger] f[i]),
        rest.len() == 0 || stops_field(cfg, rest[0]),
    ensures
        plain_len(cfg, f + rest) == f.len(),
    decreases f.len(),
{
    if f.len() == 0 {
        assert(f + rest =~= rest);
    } else {
        assert(!stops_field(cfg, f[0]));
        assert((f + rest).drop_first() =~= f.drop_first() + rest);
        lemma_plain_len(cfg, f.drop_first(), rest);
    }
}

proof fn lemma_read_field(cfg: Config, f: Seq<u8>, sole: bool, rest: Seq<u8>)
    requires
        readable(cfg),
        rest.len() == 0 || stops_field(cfg, rest[0]),
    ensures
        read_field(cfg, encode_field(cfg, f, sole) + rest) == (f, encode_field(cfg, f, sole).len()),
{
    reveal(read_field);
    let q = cfg.quote;
    let enc = encode_field(cfg, f, sole);
    let s = enc + rest;
    if (sole && f.len() == 0) || should_quote(cfg, f) {
        assert(enc =~= seq![q] + escaped(f, q, escape_of(cfg), true) + seq![q]);
        assert(s.drop_first() =~= escaped(f, q, escape_of(cfg), true) + seq![q] + rest);
        lemma_read_quoted(q, escape_of(cfg), f, rest);
    } else {
        assert(!needs_quotes(cfg, f));
        assert forall|i: int| 0 <= i < f.len() implies !stops_field(cfg, #[trigger] f[i]) by {
            assert(!is_special(cfg, f[i]));
        }
        lemma_plain_len(cfg, f, rest);
        if f.len() > 0 {
            assert(!is_special(cfg, f[0]));
        }
        assert(s.take(f.len() as int) =~= f);
    }
}

proof fn lemma_joined_first(cfg: Config, fs: Seq<Seq<u8>>, sole: bool)
    requires
        fs.len() >= 2,
    ensures
        joined(cfg, fs, sole) == encode_field(cfg, fs[0], sole) + seq![cfg.delimiter] + joined(
            cfg,
            fs.drop_first(),
            sole,
        ),
    decreases fs.len(),
{
    let dl = fs.drop_last();
    let df = fs.drop_first();
    assert(dl[0] == fs[0]);
    assert(df.last() == fs.last());
    if fs.len() == 2 {
        assert(df[0] == fs.last());
        assert(joined(cfg, dl, sole) == encode_field(cfg, fs[0], sole));
        assert(joined(cfg, df, sole) == encode_field(cfg, fs.last(), sole));
        assert(joined(cfg, fs, sole) == joined(cfg, dl, sole) + seq![cfg.delimiter] + encode_field(cfg, fs.last(), sole));
    } else {
        lemma_joined_first(cfg, fs.drop_last(), sole);
        assert(fs.drop_last().drop_first() =~= fs.drop_first().drop_last());
        assert(joined(cfg, df, sole) == joined(cfg, df.drop_last(), sole) + seq![cfg.delimiter] + encode_field(cfg, fs.last(), sole));
        assert(joined(cfg, fs, sole) == joined(cfg, dl, sole) + seq![cfg.delimiter] + encode_field(cfg, fs.last(), sole));
        assert(joined(cfg, fs, sole) =~= encode_field(cfg, fs[0], sole) + seq![cfg.delimiter] + joined(
            cfg,
            fs.drop_first(),
            sole,
        ));
    }
}

proof fn lemma_read_fields(cfg: Config, fs: Seq<Seq<u8>>, sole: bool, rest: Seq<u8>)
    requires
        readable(cfg),
        fs.len() >= 1,
        rest.len() == 0 || ends_record(cfg.terminator, rest[0]),
    ensures
        read_fields(cfg, joined(cfg, fs, sole) + rest) == (fs, joined(cfg, fs, sole).len()),
    decreases fs.len(),
{
    let s = joined(cfg, fs, sole) + rest;
    let e0 = encode_field(cfg, fs[0], sole);
    if fs.len() == 1 {
        lemma_read_field(cfg, fs[0], sole, rest);
        assert(seq![fs[0]] =~= fs);
    } else {
        lemma_joined_first(cfg, fs, sole);
        let tail = joined(cfg, fs.drop_first(), sole);
        let after = seq![cfg.delimiter] + tail + rest;
        assert(s =~= e0 + after);
        lemma_read_field(cfg, fs[0], sole, after);
        assert(read_field(cfg, s) == (fs[0], e0.len()));
        assert(s[e0.len() as int] == cfg.delimiter);
        assert(s.subrange(e0.len() + 1 as int, s.len() as int) =~= tail + rest);
        lemma_read_fields(cfg, fs.drop_first(), sole, rest);
        assert(read_fields(cfg, s.subrange(e0.len() + 1 as int, s.len() as int)) == (fs.drop_first(), tail.len()));
        assert(seq![fs[0]] + fs.drop_first() =~= fs);
        assert(s.len() == e0.len() + 1 + tail.len() + rest.len());
    }
}

proof fn lemma_field_start(cfg: Config, f: Seq<u8>, sole: bool)
    requires
        readable(cfg),
    ensures
        encode_field(cfg, f, sole).len() > 0 ==> !ends_record(cfg.terminator, encode_field(cfg, f, sole)[0]),
        f.len() > 0 || sole ==> encode_field(cfg, f, sole).len() > 0,
{
    let enc = encode_field(cfg, f, sole);
    if enc.len() > 0 && !(sole && f.len() == 0) && !should_quote(cfg, f) {
        assert(!is_special(cfg, f[0]));
    }
}

proof fn lemma_read_record(cfg: Config, fs: Seq<Seq<u8>>, rest: Seq<u8>)
    requires
        readable(cfg),
    ensures
        read_record(cfg, encode_record(cfg, fs) + rest) == (fs, encode_record(cfg, fs).len()),
{
    let t = terminator_bytes(cfg.terminator);
    let sole = fs.len() == 1;
    let j = joined(cfg, fs, sole);
    let s = encode_record(cfg, fs) + rest;
    assert(s =~= j + (t + rest));
    if fs.len() == 0 {
        assert(s.take(t.len() as int) =~= t);
        assert(fs =~= Seq::<Seq<u8>>::empty());
    } else {
        lemma_field_start(cfg, fs[0], sole);
        if fs.len() >= 2 {
            lemma_joined_first(cfg, fs, sole);
        }
        assert(j.len() > 0 && !ends_record(cfg.terminator, j[0]));
        assert(s[0] == j[0]);
        assert(ends_record(cfg.terminator, t[0]));
        if s.len() >= t.len() {
            assert(s.take(t.len() as int)[0] != t[0]);
        }
        lemma_read_fields(cfg, fs, sole, t + rest);
    }
}

/// Reading back the bytes of any sequence of records, written under options
/// that keep every record readable, gives the same records, field for field
/// and in the same order.
pub proof fn lemma_round_trip(cfg: Config, rs: Seq<Seq<Seq<u8>>>)
    requires
        readable(cfg),
    ensures
        read_all(cfg, encode_all(cfg, rs)) == rs,
    decreases rs.len(),
{
    if rs.len() > 0 {
        let first = encode_record(cfg, rs[0]);
        let s = encode_all(cfg, rs);
        lemma_read_record(cfg, rs[0], encode_all(cfg, rs.drop_first()));
        assert(terminator_bytes(cfg.terminator).len() > 0);
        assert(s.subrange(first.len() as int, s.len() as int) =~= encode_all(cfg, rs.drop_first()));
        lemma_round_trip(cfg, rs.drop_first());
        assert(seq![rs[0]] + rs.drop_first() =~= rs);
    }
}

} // verus!
