//! Properties of the encoding and of the writer's state, proved over the
//! spec functions that the executable functions' contracts use.
use vstd::prelude::*;

use crate::config::{Config, QuoteStyle};
use crate::encode::{encode_field, escape_of, escaped, is_special, needs_quotes, terminator_bytes};
use crate::writer::{continued, encode_record, joined, WriterView};

verus! {

/// How many times `b` occurs in `s`.
pub open spec fn count_byte(s: Seq<u8>, b: u8) -> nat
    decreases s.len(),
{
    if s.len() == 0 {
        0
    } else {
        (if s[0] == b { 1nat } else { 0nat }) + count_byte(s.drop_first(), b)
    }
}

/// Reads the inside of a quoted field written with doubled quotes: a pair
/// of quote bytes stands for one quote byte.
pub open spec fn undouble(s: Seq<u8>, q: u8) -> Seq<u8>
    decreases s.len(),
{
    if s.len() == 0 {
        Seq::empty()
    } else if s.len() >= 2 && s[0] == q && s[1] == q {
        seq![q] + undouble(s.subrange(2, s.len() as int), q)
    } else {
        seq![s[0]] + undouble(s.drop_first(), q)
    }
}

/// Under the default quoting style, a field that holds a delimiter, a quote
/// byte or a terminator byte (in particular a field that is one such byte)
/// is written between quotes; any other field is written as it is, unless it
/// is empty and the only field of its record.
pub proof fn lemma_quoting_necessity(cfg: Config, f: Seq<u8>, sole: bool)
    requires
        cfg.quote_style == QuoteStyle::Necessary,
    ensures
        needs_quotes(cfg, f) ==> encode_field(cfg, f, sole) == seq![cfg.quote] + escaped(
            f,
            cfg.quote,
            escape_of(cfg),
            cfg.double_quote,
        ) + seq![cfg.quote],
        f.len() == 1 && is_special(cfg, f[0]) ==> encode_field(cfg, f, sole) == seq![cfg.quote]
            + escaped(f, cfg.quote, escape_of(cfg), cfg.double_quote) + seq![cfg.quote],
        !needs_quotes(cfg, f) && (f.len() > 0 || !sole) ==> encode_field(cfg, f, sole) == f,
{
    if f.len() == 1 && is_special(cfg, f[0]) {
        assert(needs_quotes(cfg, f));
    }
}

/// With doubled quotes, a field with `n` quote bytes is escaped to `2 * n`
/// quote bytes and `n` more bytes than it had, and reading the pairs back
/// gives the field.
pub proof fn lemma_escape_doubles(f: Seq<u8>, q: u8, e: u8)
    ensures
        escaped(f, q, e, true).len() == f.len() + count_byte(f, q),
        count_byte(escaped(f, q, e, true), q) == 2 * count_byte(f, q),
        undouble(escaped(f, q, e, true), q) == f,
    decreases f.len(),
{
    if f.len() > 0 {
        let rest = escaped(f.drop_first(), q, e, true);
        lemma_escape_doubles(f.drop_first(), q, e);
        let s = escaped(f, q, e, true);
        if f[0] == q {
            assert(s == seq![q, q] + rest);
            assert(s.drop_first() =~= seq![q] + rest);
            assert((seq![q] + rest).drop_first() =~= rest);
            assert(s.subrange(2, s.len() as int) =~= rest);
            assert(count_byte(seq![q] + rest, q) == 1 + count_byte(rest, q));
            assert(count_byte(s, q) == 2 + count_byte(rest, q));
        } else {
            assert(s == seq![f[0]] + rest);
            assert(s.drop_first() =~= rest);
            assert(count_byte(s, q) == count_byte(rest, q));
        }
        assert(seq![f[0]] + f.drop_first() =~= f);
    }
}

/// A record of one empty field is written as two quotes and the
/// terminator; a record of no field as the terminator alone.
pub proof fn lemma_sole_empty_field(cfg: Config)
    ensures
        encode_record(cfg, seq![Seq::<u8>::empty()]) == seq![cfg.quote, cfg.quote] + terminator_bytes(
            cfg.terminator,
        ),
        encode_record(cfg, Seq::<Seq<u8>>::empty()) == terminator_bytes(cfg.terminator),
{
    assert(Seq::<u8>::empty() + terminator_bytes(cfg.terminator) =~= terminator_bytes(cfg.terminator));
}

/// A writer that is not flexible takes its first record whatever its field
/// count, then takes a record exactly when its count is that of the first,
/// whether or not the pending bytes were handed on in between, and keeps
/// that count; a flexible writer takes every record.
pub proof fn lemma_field_count(v: WriterView, first: Seq<Seq<u8>>, next: Seq<Seq<u8>>)
    requires
        v.fields_written == 0,
        v.expected is None,
    ensures
        v.accepts(first.len()),
        !v.flexible ==> (v.after_record(first).accepts(next.len()) <==> next.len() == first.len()),
        !v.flexible ==> (v.after_record(first).drained().accepts(next.len()) <==> next.len()
            == first.len()),
        !v.flexible ==> v.after_record(first).after_record(next).expected == Some(first.len()),
        v.flexible ==> v.after_record(first).accepts(next.len()) && v.after_record(first).after_record(
            next,
        ).accepts(first.len()),
{
}

/// The state after the fields `fs` were written one at a time.
pub open spec fn after_fields(v: WriterView, fs: Seq<Seq<u8>>) -> WriterView
    decreases fs.len(),
{
    if fs.len() == 0 {
        v
    } else {
        after_fields(v, fs.drop_last()).after_field(fs.last())
    }
}

proof fn lemma_after_fields(v: WriterView, fs: Seq<Seq<u8>>)
    requires
        v.fields_written == 0,
        v.record_empty,
    ensures
        after_fields(v, fs).pending == v.pending + joined(v.config, fs, false),
        after_fields(v, fs).fields_written == fs.len(),
        after_fields(v, fs).record_empty == (fs.len() <= 1 && joined(v.config, fs, false).len() == 0),
        after_fields(v, fs).config == v.config,
        after_fields(v, fs).expected == v.expected,
        after_fields(v, fs).flexible == v.flexible,
    decreases fs.len(),
{
    if fs.len() == 0 {
        assert(v.pending + joined(v.config, fs, false) =~= v.pending);
    } else {
        lemma_after_fields(v, fs.drop_last());
        if fs.len() == 1 {
            assert(fs.last() == fs[0]);
            assert(after_fields(v, fs).pending =~= v.pending + joined(v.config, fs, false));
        } else {
            assert(after_fields(v, fs).pending =~= v.pending + joined(v.config, fs, false));
        }
    }
}

proof fn lemma_joined_append(cfg: Config, fs: Seq<Seq<u8>>, rest: Seq<Seq<u8>>)
    requires
        fs.len() >= 1,
    ensures
        joined(cfg, fs + rest, false) == joined(cfg, fs, false) + continued(cfg, rest),
    decreases rest.len(),
{
    if rest.len() == 0 {
        assert(fs + rest =~= fs);
        assert(joined(cfg, fs, false) + continued(cfg, rest) =~= joined(cfg, fs, false));
    } else {
        lemma_joined_append(cfg, fs, rest.drop_last());
        let all = fs + rest;
        assert(all.drop_last() =~= fs + rest.drop_last());
        assert(all.last() == rest.last());
        assert(joined(cfg, all, false) =~= joined(cfg, fs, false) + continued(cfg, rest));
    }
}

/// Writing some fields of a record one at a time and then ending the
/// record with the others gives the bytes, and the field count, of writing
/// the whole record at once.
pub proof fn lemma_fields_then_record(v: WriterView, fs: Seq<Seq<u8>>, rest: Seq<Seq<u8>>)
    requires
        v.fields_written == 0,
        v.record_empty,
    ensures
        after_fields(v, fs).after_record(rest).pending == v.pending + encode_record(v.config, fs + rest),
        after_fields(v, fs).accepts(rest.len()) == v.accepts((fs + rest).len()),
        after_fields(v, fs).after_record(rest).expected == v.after_record(fs + rest).expected,
{
    let cfg = v.config;
    let w = after_fields(v, fs);
    lemma_after_fields(v, fs);
    if fs.len() == 0 {
        assert(fs + rest =~= rest);
    } else if fs.len() == 1 && rest.len() == 0 {
        assert(fs + rest =~= fs);
        assert(fs.last() == fs[0]);
        let f = fs[0];
        if f.len() == 0 {
            assert(encode_field(cfg, f, true) == seq![cfg.quote, cfg.quote]);
        }
        assert(continued(cfg, rest) =~= Seq::<u8>::empty());
        assert(w.after_record(rest).pending =~= v.pending + encode_record(cfg, fs + rest));
    } else {
        lemma_joined_append(cfg, fs, rest);
        assert(w.after_record(rest).pending =~= v.pending + encode_record(cfg, fs + rest));
    }
}

} // verus!
