use vstd::prelude::*;

verus! {

/// When a field is put between quote bytes.
#[derive(Clone, Copy, Debug, PartialEq, Eq, Structural)]
pub enum QuoteStyle {
    /// Every field is quoted.
    Always,
    /// A field is quoted when it holds the delimiter, the quote byte or a
    /// byte of the terminator.
    Necessary,
    /// A field is quoted unless it reads as a number.
    NonNumeric,
    /// No field is quoted, even where the output then cannot be read back.
    Never,
}

/// How records end.
#[derive(Clone, Copy, Debug, PartialEq, Eq, Structural)]
pub enum Terminator {
    /// `\r\n` is written; either of `\r` and `\n` ends a record when read.
    CRLF,
    /// The given byte is written and ends a record.
    Any(u8),
}

/// The formatting options that decide the bytes of each field and record.
#[derive(Clone, Copy, Debug)]
pub struct Config {
    pub delimiter: u8,
    pub quote: u8,
    pub escape: Option<u8>,
    pub double_quote: bool,
    pub quote_style: QuoteStyle,
    pub terminator: Terminator,
}

impl Config {
    /// The options a writer can be built from: the quote byte differs from
    /// the delimiter, and an escape byte is set where quotes are escaped.
    pub open spec fn valid(self) -> bool {
        &&& self.quote != self.delimiter
        &&& (!self.double_quote ==> self.escape is Some)
    }
}

/// Gathers the options of a writer; `build` checks and freezes them.
#[derive(Clone, Copy, Debug)]
pub struct WriterBuilder {
    pub config: Config,
    pub capacity: usize,
    pub flexible: bool,
    pub has_headers: bool,
}

/// The size of the output buffer when none is chosen.
pub const DEFAULT_CAPACITY: usize = 8192;

impl WriterBuilder {
    /// A builder with the default options: `,` as delimiter, `"` as quote,
    /// doubled quotes, no escape byte, quoting where necessary, `\r\n`
    /// after each record, fixed field counts, a header row, and a buffer of
    /// 8192 bytes.
    pub open spec fn spec_default() -> WriterBuilder {
        WriterBuilder {
            config: Config {
                delimiter: 44u8,
                quote: 34u8,
                escape: None,
                double_quote: true,
                quote_style: QuoteStyle::Necessary,
                terminator: Terminator::CRLF,
            },
            capacity: DEFAULT_CAPACITY,
            flexible: false,
            has_headers: true,
        }
    }

    /// Creates a builder with the default options.
    pub fn new() -> (r: WriterBuilder)
        ensures
            r == WriterBuilder::spec_default(),
    {
        WriterBuilder {
            config: Config {
                delimiter: 44u8,
                quote: 34u8,
                escape: None,
                double_quote: true,
                quote_style: QuoteStyle::Necessary,
                terminator: Terminator::CRLF,
            },
            capacity: DEFAULT_CAPACITY,
            flexible: false,
            has_headers: true,
        }
    }

    /// Sets the byte written between fields.
    pub fn delimiter(&mut self, delimiter: u8) -> (r: &mut WriterBuilder)
        ensures
            *r == (WriterBuilder {
                config: Config { delimiter, ..old(self).config },
                ..*old(self)
            }),
            *final(self) == *final(r),
    {
        self.config.delimiter = delimiter;
        self
    }

    /// Sets whether a header row is written before the first data row by a
    /// layer that writes named records.
    pub fn has_headers(&mut self, yes: bool) -> (r: &mut WriterBuilder)
        ensures
            *r == (WriterBuilder { has_headers: yes, ..*old(self) }),
            *final(self) == *final(r),
    {
        self.has_headers = yes;
        self
    }

    /// Sets whether records may differ in their number of fields.
    pub fn flexible(&mut self, yes: bool) -> (r: &mut WriterBuilder)
        ensures
            *r == (WriterBuilder { flexible: yes, ..*old(self) }),
            *final(self) == *final(r),
    {
        self.flexible = yes;
        self
    }

    /// Sets what is written after each record.
    pub fn terminator(&mut self, term: Terminator) -> (r: &mut WriterBuilder)
        ensures
            *r == (WriterBuilder {
                config: Config { terminator: term, ..old(self).config },
                ..*old(self)
            }),
            *final(self) == *final(r),
    {
        self.config.terminator = term;
        self
    }

    /// Sets when fields are quoted.
    pub fn quote_style(&mut self, style: QuoteStyle) -> (r: &mut WriterBuilder)
        ensures
            *r == (WriterBuilder {
                config: Config { quote_style: style, ..old(self).config },
                ..*old(self)
            }),
            *final(self) == *final(r),
    {
        self.config.quote_style = style;
        self
    }

    /// Sets the quote byte.
    pub fn quote(&mut self, quote: u8) -> (r: &mut WriterBuilder)
        ensures
            *r == (WriterBuilder {
                config: Config { quote, ..old(self).config },
                ..*old(self)
            }),
            *final(self) == *final(r),
    {
        self.config.quote = quote;
        self
    }

    /// Sets the byte put before a quote inside a quoted field when quotes
    /// are not doubled.
    pub fn escape(&mut self, escape: u8) -> (r: &mut WriterBuilder)
        ensures
            *r == (WriterBuilder {
                config: Config { escape: Some(escape), ..old(self).config },
                ..*old(self)
            }),
            *final(self) == *final(r),
    {
        self.config.escape = Some(escape);
        self
    }

    /// Sets whether a quote inside a quoted field is doubled (else escaped).
    pub fn double_quote(&mut self, yes: bool) -> (r: &mut WriterBuilder)
        ensures
            *r == (WriterBuilder {
                config: Config { double_quote: yes, ..old(self).config },
                ..*old(self)
            }),
            *final(self) == *final(r),
    {
        self.config.double_quote = yes;
        self
    }

    /// Sets how many bytes gather in the writer before they are handed on.
    pub fn buffer_capacity(&mut self, capacity: usize) -> (r: &mut WriterBuilder)
        ensures
            *r == (WriterBuilder { capacity, ..*old(self) }),
            *final(self) == *final(r),
    {
        self.capacity = capacity;
        self
    }
}

impl Default for WriterBuilder {
    fn default() -> (r: WriterBuilder)
        ensures
            r == WriterBuilder::spec_default(),
    {
        WriterBuilder::new()
    }
}

} // verus!
