use vstd::prelude::*;

use crate::config::{Config, Terminator, WriterBuilder};
use crate::encode::{encode_field, encode_field_into, terminator_bytes};
use crate::error::Error;

verus! {

/// The fields of a record, as byte sequences.
pub open spec fn fields_of(record: Seq<Vec<u8>>) -> Seq<Seq<u8>> {
    record.map_values(|v: Vec<u8>| v@)
}

/// The fields encoded and separated by the delimiter; `sole` is handed to
/// each field's encoding.
pub open spec fn joined(cfg: Config, fs: Seq<Seq<u8>>, sole: bool) -> Seq<u8>
    decreases fs.len(),
{
    if fs.len() == 0 {
        Seq::empty()
    } else if fs.len() == 1 {
        encode_field(cfg, fs[0], sole)
    } else {
        joined(cfg, fs.drop_last(), sole) + seq![cfg.delimiter] + encode_field(cfg, fs.last(), sole)
    }
}

/// The fields encoded, each after a delimiter: what follows fields that
/// were written one at a time.
pub open spec fn continued(cfg: Config, fs: Seq<Seq<u8>>) -> Seq<u8>
    decreases fs.len(),
{
    if fs.len() == 0 {
        Seq::empty()
    } else {
        continued(cfg, fs.drop_last()) + seq![cfg.delimiter] + encode_field(cfg, fs.last(), false)
    }
}

/// The bytes of a whole record: its fields, separated by the delimiter,
/// then the terminator.
pub open spec fn encode_record(cfg: Config, fs: Seq<Seq<u8>>) -> Seq<u8> {
    joined(cfg, fs, fs.len() == 1) + terminator_bytes(cfg.terminator)
}

/// The bytes that end a record of which `written` fields were already
/// written one at a time (`empty`: without a byte so far), when the
/// remaining fields `fs` are given.
pub open spec fn record_rest(cfg: Config, written: nat, empty: bool, fs: Seq<Seq<u8>>) -> Seq<u8> {
    if written == 0 {
        encode_record(cfg, fs)
    } else {
        continued(cfg, fs) + (if written == 1 && fs.len() == 0 && empty {
            seq![cfg.quote, cfg.quote]
        } else {
            Seq::empty()
        }) + terminator_bytes(cfg.terminator)
    }
}

/// What a writer is: its options, the bytes not yet handed on, and the
/// state of the record in progress and of the field count.
pub struct WriterView {
    pub config: Config,
    pub capacity: nat,
    pub flexible: bool,
    pub has_headers: bool,
    /// Bytes written but not yet handed on.
    pub pending: Seq<u8>,
    /// Fields of the current record written one at a time.
    pub fields_written: nat,
    /// No byte of the current record has been written.
    pub record_empty: bool,
    /// The field count that every record must have, once one was written.
    pub expected: Option<nat>,
    /// The header row has been written.
    pub header_written: bool,
}

impl WriterView {
    /// Whether a record that ends with `n` more fields keeps the field count.
    pub open spec fn accepts(self, n: nat) -> bool {
        self.flexible || match self.expected {
            None => true,
            Some(e) => self.fields_written + n == e,
        }
    }

    /// The state after one more field of the current record.
    pub open spec fn after_field(self, f: Seq<u8>) -> WriterView {
        let sep = if self.fields_written > 0 { seq![self.config.delimiter] } else { Seq::empty() };
        let enc = encode_field(self.config, f, false);
        WriterView {
            pending: self.pending + sep + enc,
            fields_written: self.fields_written + 1,
            record_empty: self.record_empty && self.fields_written == 0 && enc.len() == 0,
            ..self
        }
    }

    /// The state after the current record is ended with the fields `fs`.
    pub open spec fn after_record(self, fs: Seq<Seq<u8>>) -> WriterView {
        WriterView {
            pending: self.pending + record_rest(self.config, self.fields_written, self.record_empty, fs),
            fields_written: 0,
            record_empty: true,
            expected: if self.flexible || self.expected is Some {
                self.expected
            } else {
                Some(self.fields_written + fs.len())
            },
            ..self
        }
    }

    /// The state once the pending bytes have been handed on.
    pub open spec fn drained(self) -> WriterView {
        WriterView { pending: Seq::empty(), ..self }
    }

    /// A write that leads to state `s` hands on `out` and leaves `t`: all
    /// pending bytes once they reach the capacity, nothing before.
    pub open spec fn hands_on(s: WriterView, out: Option<Vec<u8>>, t: WriterView) -> bool {
        if s.pending.len() >= s.capacity {
            out is Some && out->0@ == s.pending && t == s.drained()
        } else {
            out is None && t == s
        }
    }
}

/// Encodes records into a buffer, keeps the field count of the stream, and
/// says when the buffered bytes are to be handed to the sink.
pub struct Writer {
    config: Config,
    capacity: usize,
    flexible: bool,
    has_headers: bool,
    buf: Vec<u8>,
    fields_written: usize,
    record_empty: bool,
    expected: Option<usize>,
    header_written: bool,
}

/// Appends the encoded fields of `record` to `buf`, separated by the
/// delimiter, with a delimiter before the first unless `first`.
fn write_fields(cfg: &Config, record: &[Vec<u8>], first: bool, sole: bool, buf: &mut Vec<u8>)
    requires
        forall|i: int| 0 <= i < record@.len() ==> (#[trigger] record@[i])@.len() <= isize::MAX,
    ensures
        final(buf)@ == old(buf)@ + (if first {
            joined(*cfg, fields_of(record@), sole)
        } else {
            continued(*cfg, fields_of(record@))
        }),
{
    let ghost fs = fields_of(record@);
    let n = record.len();
    let mut i: usize = 0;
    while i < n
        invariant
            n == record@.len(),
            fs == fields_of(record@),
            i <= n,
            forall|j: int| 0 <= j < record@.len() ==> (#[trigger] record@[j])@.len() <= isize::MAX,
            buf@ == old(buf)@ + (if first {
                joined(*cfg, fs.take(i as int), sole)
            } else {
                continued(*cfg, fs.take(i as int))
            }),
        decreases n - i,
    {
        if !first || i > 0 {
            buf.push(cfg.delimiter);
        }
        encode_field_into(cfg, record[i].as_slice(), sole && first, buf);
        proof {
            let t = fs.take(i + 1);
            assert(t.drop_last() =~= fs.take(i as int));
            assert(t.last() == record@[i as int]@);
            if first && i == 0 {
                assert(t =~= seq![record@[0]@]);
            }
            if first {
                assert(buf@ =~= old(buf)@ + joined(*cfg, t, sole));
            } else {
                assert(buf@ =~= old(buf)@ + continued(*cfg, t));
            }
        }
        i = i + 1;
    }
    proof {
        assert(fs.take(n as int) =~= fs);
    }
}

/// Appends two quotes where `pad` holds, then the terminator.
fn write_end(cfg: &Config, pad: bool, buf: &mut Vec<u8>)
    ensures
        final(buf)@ == old(buf)@ + (if pad {
            seq![cfg.quote, cfg.quote]
        } else {
            Seq::empty()
        }) + terminator_bytes(cfg.terminator),
{
    if pad {
        buf.push(cfg.quote);
        buf.push(cfg.quote);
    }
    match cfg.terminator {
        Terminator::CRLF => {
            buf.push(13u8);
            buf.push(10u8);
        },
        Terminator::Any(b) => {
            buf.push(b);
        },
    }
    assert(final(buf)@ =~= old(buf)@ + (if pad {
        seq![cfg.quote, cfg.quote]
    } else {
        Seq::empty()
    }) + terminator_bytes(cfg.terminator));
}

impl View for Writer {
    type V = WriterView;

    closed spec fn view(&self) -> WriterView {
        WriterView {
            config: self.config,
            capacity: self.capacity as nat,
            flexible: self.flexible,
            has_headers: self.has_headers,
            pending: self.buf@,
            fields_written: self.fields_written as nat,
            record_empty: self.record_empty,
            expected: match self.expected {
                Some(e) => Some(e as nat),
                None => None,
            },
            header_written: self.header_written,
        }
    }
}

impl Writer {
    /// The options are valid, and a record with no field written has no
    /// byte written.
    pub open spec fn wf(&self) -> bool {
        &&& self@.config.valid()
        &&& (self@.fields_written == 0 ==> self@.record_empty)
    }

    /// Builds a writer from the builder's options, or says which option is
    /// inconsistent.
    pub fn new(builder: &WriterBuilder) -> (r: Result<Writer, Error>)
        ensures
            builder.config.quote == builder.config.delimiter ==> r == Err::<Writer, Error>(
                Error::QuoteIsDelimiter,
            ),
            builder.config.quote != builder.config.delimiter && !builder.config.double_quote
                && builder.config.escape is None ==> r == Err::<Writer, Error>(Error::MissingEscape),
            builder.config.valid() <==> r is Ok,
            r matches Ok(w) ==> w.wf() && w@ == (WriterView {
                config: builder.config,
                capacity: builder.capacity as nat,
                flexible: builder.flexible,
                has_headers: builder.has_headers,
                pending: Seq::empty(),
                fields_written: 0,
                record_empty: true,
                expected: None,
                header_written: false,
            }),
    {
        if builder.config.quote == builder.config.delimiter {
            return Err(Error::QuoteIsDelimiter);
        }
        if !builder.config.double_quote && builder.config.escape.is_none() {
            return Err(Error::MissingEscape);
        }
        Ok(Writer {
            config: builder.config,
            capacity: builder.capacity,
            flexible: builder.flexible,
            has_headers: builder.has_headers,
            buf: Vec::new(),
            fields_written: 0,
            record_empty: true,
            expected: None,
            header_written: false,
        })
    }
    /// Hands on all pending bytes once they reach the capacity.
    fn hand_on_if_full(&mut self) -> (out: Option<Vec<u8>>)
        ensures
            WriterView::hands_on(old(self)@, out, final(self)@),
    {
        if self.buf.len() >= self.capacity {
            let mut out: Vec<u8> = Vec::new();
            std::mem::swap(&mut out, &mut self.buf);
            Some(out)
        } else {
            None
        }
    }

    /// Hands on every pending byte, whether or not the capacity is reached.
    pub fn flush(&mut self) -> (out: Vec<u8>)
        requires
            old(self).wf(),
        ensures
            final(self).wf(),
            out@ == old(self)@.pending,
            final(self)@ == old(self)@.drained(),
    {
        let mut out: Vec<u8> = Vec::new();
        std::mem::swap(&mut out, &mut self.buf);
        out
    }

    /// Writes one field of the current record, after a delimiter unless it
    /// is the record's first. The field count is checked, and the
    /// terminator written, when the record is ended by `write_record`.
    pub fn write_field(&mut self, field: &[u8])
        requires
            old(self).wf(),
            field@.len() <= isize::MAX,
            old(self)@.fields_written < usize::MAX,
        ensures
            final(self).wf(),
            final(self)@ == old(self)@.after_field(field@),
    {
        let before = self.buf.len();
        if self.fields_written > 0 {
            self.buf.push(self.config.delimiter);
        }
        encode_field_into(&self.config, field, false, &mut self.buf);
        self.record_empty = self.record_empty && self.fields_written == 0 && self.buf.len() == before;
        self.fields_written = self.fields_written + 1;
        assert(self@.pending =~= old(self)@.after_field(field@).pending);
    }

    /// Ends the current record with the fields of `record`: each is encoded,
    /// fields are separated by the delimiter, and the terminator follows.
    /// A writer that is not flexible refuses, and leaves unchanged, a record
    /// whose field count differs from that of its first record. Once the
    /// pending bytes reach the capacity, they are returned to be handed to
    /// the sink.
    pub fn write_record(&mut self, record: &[Vec<u8>]) -> (r: Result<Option<Vec<u8>>, Error>)
        requires
            old(self).wf(),
            forall|i: int| 0 <= i < record@.len() ==> (#[trigger] record@[i])@.len() <= isize::MAX,
            old(self)@.fields_written + record@.len() <= usize::MAX,
        ensures
            final(self).wf(),
            r is Ok <==> old(self)@.accepts(record@.len() as nat),
            r matches Ok(out) ==> WriterView::hands_on(
                old(self)@.after_record(fields_of(record@)),
                out,
                final(self)@,
            ),
            r matches Err(e) ==> final(self)@ == old(self)@ && e == (Error::UnequalLengths {
                expected_len: old(self)@.expected->0 as usize,
                len: (old(self)@.fields_written + record@.len()) as usize,
            }),
    {
        let ghost fs = fields_of(record@);
        let n = record.len();
        let k = self.fields_written;
        let total = k + n;
        if !self.flexible {
            if let Some(e) = self.expected {
                if total != e {
                    return Err(Error::UnequalLengths { expected_len: e, len: total });
                }
            }
        }
        write_fields(&self.config, record, k == 0, k == 0 && n == 1, &mut self.buf);
        let pad = k == 1 && n == 0 && self.record_empty;
        write_end(&self.config, pad, &mut self.buf);
        if !self.flexible && self.expected.is_none() {
            self.expected = Some(total);
        }
        self.fields_written = 0;
        self.record_empty = true;
        proof {
            let rest = record_rest(self.config, k as nat, old(self)@.record_empty, fs);
            assert(self@.pending =~= old(self)@.pending + rest);
        }
        assert(self@ =~= old(self)@.after_record(fs));
        Ok(self.hand_on_if_full())
    }

    /// Writes the header row `names` as a record, once, when the writer was
    /// built to have headers; otherwise does nothing.
    pub fn write_header(&mut self, names: &[Vec<u8>]) -> (r: Result<Option<Vec<u8>>, Error>)
        requires
            old(self).wf(),
            forall|i: int| 0 <= i < names@.len() ==> (#[trigger] names@[i])@.len() <= isize::MAX,
            old(self)@.fields_written + names@.len() <= usize::MAX,
        ensures
            final(self).wf(),
            !old(self)@.has_headers || old(self)@.header_written ==> r == Ok::<Option<Vec<u8>>, Error>(
                None,
            ) && final(self)@ == old(self)@,
            old(self)@.has_headers && !old(self)@.header_written ==> {
                &&& r is Ok <==> old(self)@.accepts(names@.len() as nat)
                &&& r matches Ok(out) ==> WriterView::hands_on(
                    WriterView { header_written: true, ..old(self)@.after_record(fields_of(names@)) },
                    out,
                    final(self)@,
                )
                &&& r matches Err(e) ==> final(self)@ == old(self)@ && e == (Error::UnequalLengths {
                    expected_len: old(self)@.expected->0 as usize,
                    len: (old(self)@.fields_written + names@.len()) as usize,
                })
            },
    {
        if !self.has_headers || self.header_written {
            return Ok(None);
        }
        let r = self.write_record(names);
        if r.is_ok() {
            self.header_written = true;
        }
        r
    }
}

} // verus!
