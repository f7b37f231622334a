//! Record-level types and the streaming record reader. The reader splits a
//! byte stream on a schema-configured separator (the raw form may hold
//! backslash escapes) with a naive match that resets on mismatch, numbers
//! records from one, and yields an error item for bytes that are not UTF-8.

use vstd::prelude::*;
use vstd::utf8::{decode_utf8, valid_utf8};

use crate::text::{bytes_to_string, str_to_chars};

verus! {

/// A record that validated: its number, the selected line type, and the
/// trimmed cell values keyed by cell name in declaration order.
#[derive(Debug)]
pub struct ProcessedLineOk {
    pub line_number: usize,
    pub cell_values: indexmap::IndexMap<String, String>,
    pub linetype: String,
}

/// A record that failed validation: its number and a diagnostic message.
#[derive(Debug)]
pub struct ProcessedLineError {
    pub line_number: usize,
    pub message: String,
}

/// One raw record read from the input.
#[derive(Debug)]
pub struct ReadLine {
    pub line_number: usize,
    pub line_content: String,
}

/// A reader-level failure: the bytes of a record were not valid UTF-8.
#[derive(Debug)]
pub struct ReadError {
    pub message: String,
}

/// Where the parser finds its input: the data file and the schema file.
#[derive(Debug)]
pub struct ParserConfig {
    pub file_path: String,
    pub file_schema: String,
}

/// The byte a separator escape expands to: `\n`, `\r`, `\t`, `\f` and `\0`
/// name control bytes; any other escaped character stands for itself.
pub open spec fn spec_escape_byte(c: char) -> u8 {
    if c == 'n' {
        10
    } else if c == 'r' {
        13
    } else if c == 't' {
        9
    } else if c == 'f' {
        12
    } else if c == '0' {
        0
    } else {
        spec_char_byte(c)
    }
}

/// A character narrowed to one byte, as a `char`-to-`u8` cast truncates it.
pub open spec fn spec_char_byte(c: char) -> u8 {
    ((c as u32) % 256) as u8
}

/// The separator bytes: backslash escapes expanded, a trailing lone
/// backslash dropped.
pub open spec fn spec_expand_escapes(s: Seq<char>) -> Seq<u8>
    decreases s.len(),
{
    if s.len() == 0 {
        seq![]
    } else if s[0] == '\\' {
        if s.len() == 1 {
            seq![]
        } else {
            seq![spec_escape_byte(s[1])] + spec_expand_escapes(s.skip(2))
        }
    } else {
        seq![spec_char_byte(s[0])] + spec_expand_escapes(s.skip(1))
    }
}

/// A character narrowed to one byte.
fn char_byte(c: char) -> (r: u8)
    ensures
        r == spec_char_byte(c),
{
    let cu: u32 = c as u32;
    (cu % 256) as u8
}

/// The byte an escaped character expands to.
fn escape_byte(c: char) -> (r: u8)
    ensures
        r == spec_escape_byte(c),
{
    if c == 'n' {
        10
    } else if c == 'r' {
        13
    } else if c == 't' {
        9
    } else if c == 'f' {
        12
    } else if c == '0' {
        0
    } else {
        char_byte(c)
    }
}

/// Expand the raw separator text into its byte sequence.
fn expand_escapes(s: &str) -> (r: Vec<u8>)
    ensures
        r@ == spec_expand_escapes(s@),
{
    let chars = str_to_chars(s);
    let mut out: Vec<u8> = Vec::new();
    let mut i: usize = 0;
    proof {
        assert(s@.skip(0) =~= s@);
        assert(out@ + spec_expand_escapes(s@) =~= spec_expand_escapes(s@));
    }
    while i < chars.len()
        invariant
            0 <= i <= chars@.len(),
            chars@ == s@,
            spec_expand_escapes(s@) == out@ + spec_expand_escapes(s@.skip(i as int)),
        decreases chars@.len() - i,
    {
        let ghost rest = s@.skip(i as int);
        let ghost prev = out@;
        let c = chars[i];
        if c == '\\' {
            if i + 1 < chars.len() {
                let b = escape_byte(chars[i + 1]);
                out.push(b);
                proof {
                    assert(rest.skip(2) =~= s@.skip(i + 2));
                    assert(out@ + spec_expand_escapes(s@.skip(i + 2)) =~= prev
                        + spec_expand_escapes(rest));
                }
                i += 2;
            } else {
                proof {
                    assert(rest.len() == 1);
                }
                i += 1;
            }
        } else {
            out.push(char_byte(c));
            proof {
                assert(rest.skip(1) =~= s@.skip(i + 1));
                assert(out@ + spec_expand_escapes(s@.skip(i + 1)) =~= prev
                    + spec_expand_escapes(rest));
            }
            i += 1;
        }
    }
    proof {
        assert(s@.skip(s@.len() as int) =~= Seq::<char>::empty());
        assert(out@ =~= out@ + spec_expand_escapes(s@.skip(s@.len() as int)));
    }
    out
}

/// The streaming record reader's state: how many records came out, the
/// expanded separator, the bytes of the record being assembled, and how far
/// into the separator the current match has come.
#[derive(Debug)]
pub struct FileBuffer {
    current_line: usize,
    newline_characters: Vec<u8>,
    buf: Vec<u8>,
    match_index: usize,
    finished: bool,
}

impl FileBuffer {
    /// How many records have been yielded.
    pub closed spec fn records_emitted(self) -> nat {
        self.current_line as nat
    }

    /// The expanded separator bytes.
    pub closed spec fn sep_bytes(self) -> Seq<u8> {
        self.newline_characters@
    }

    /// The bytes gathered since the last yielded record.
    pub closed spec fn pending(self) -> Seq<u8> {
        self.buf@
    }

    /// How many separator bytes the tail of the pending bytes has matched.
    pub closed spec fn matched(self) -> nat {
        self.match_index as nat
    }

    /// Whether the end of the input was announced.
    pub closed spec fn eof_seen(self) -> bool {
        self.finished
    }

    /// A usable reader: the separator is non-empty and the match index stays
    /// inside both the separator and the pending bytes.
    pub open spec fn wf(self) -> bool {
        &&& self.sep_bytes().len() >= 1
        &&& self.matched() < self.sep_bytes().len()
        &&& self.matched() <= self.pending().len()
    }

    /// Whether `byte` completes the separator.
    pub open spec fn spec_completes(self, byte: u8) -> bool {
        byte == self.sep_bytes()[self.matched() as int] && self.matched() + 1
            == self.sep_bytes().len()
    }

    /// Whether `byte` advances the separator match without completing it.
    pub open spec fn spec_advances(self, byte: u8) -> bool {
        byte == self.sep_bytes()[self.matched() as int] && self.matched() + 1
            < self.sep_bytes().len()
    }

    /// The bytes of the record completed by `byte`: everything gathered,
    /// less the separator.
    pub open spec fn spec_record_bytes(self, byte: u8) -> Seq<u8> {
        self.pending().push(byte).take(
            self.pending().len() + 1 - self.sep_bytes().len(),
        )
    }

    /// A reader over records separated by `newline_characters`, whose
    /// backslash escapes are expanded here.
    pub fn new(newline_characters: String) -> (r: Self)
        ensures
            r.sep_bytes() == spec_expand_escapes(newline_characters@),
            r.records_emitted() == 0,
            r.pending().len() == 0,
            r.matched() == 0,
            !r.eof_seen(),
            spec_expand_escapes(newline_characters@).len() >= 1 ==> r.wf(),
    {
        FileBuffer {
            current_line: 0,
            newline_characters: expand_escapes(newline_characters.as_str()),
            buf: Vec::new(),
            match_index: 0,
            finished: false,
        }
    }

    /// How many bytes the expanded separator holds.
    pub fn separator_len(&self) -> (r: usize)
        ensures
            r == self.sep_bytes().len(),
    {
        self.newline_characters.len()
    }

    /// Feed one input byte. Yields the completed record when `byte` closes
    /// the separator, an error item when its bytes are not UTF-8, and
    /// nothing otherwise. Records are numbered from one in emission order.
    pub fn push_byte(&mut self, byte: u8) -> (r: Option<Result<ReadLine, ReadError>>)
        requires
            old(self).wf(),
            !old(self).eof_seen(),
            old(self).records_emitted() < usize::MAX,
        ensures
            final(self).wf(),
            !final(self).eof_seen(),
            final(self).sep_bytes() == old(self).sep_bytes(),
            r matches Some(Ok(rl)) ==> rl.line_number == old(self).records_emitted() + 1
                && final(self).records_emitted() == old(self).records_emitted() + 1,
            !(r matches Some(Ok(_))) ==> final(self).records_emitted() == old(
                self,
            ).records_emitted(),
            old(self).spec_completes(byte) && valid_utf8(old(self).spec_record_bytes(byte)) ==> (
            r matches Some(Ok(rl)) && rl.line_content@ == decode_utf8(
                old(self).spec_record_bytes(byte),
            ) && final(self).pending().len() == 0 && final(self).matched() == 0),
            old(self).spec_completes(byte) && !valid_utf8(old(self).spec_record_bytes(byte)) ==> (
            r matches Some(Err(_)) && final(self).pending() == old(self).spec_record_bytes(byte)
                && final(self).matched() == 0),
            old(self).spec_advances(byte) ==> r is None && final(self).pending() == old(
                self,
            ).pending().push(byte) && final(self).matched() == old(self).matched() + 1,
            !old(self).spec_completes(byte) && !old(self).spec_advances(byte) ==> r is None
                && final(self).pending() == old(self).pending().push(byte) && final(self).matched()
                == 0,
    {
        self.buf.push(byte);
        let sep_len = self.newline_characters.len();
        if byte == self.newline_characters[self.match_index] {
            self.match_index += 1;
            if self.match_index == sep_len {
                let new_len = self.buf.len() - self.newline_characters.len();
                self.buf.truncate(new_len);
                self.match_index = 0;
                let mut bytes: Vec<u8> = Vec::new();
                let mut j: usize = 0;
                while j < self.buf.len()
                    invariant
                        0 <= j <= self.buf@.len(),
                        bytes@ == self.buf@.take(j as int),
                    decreases self.buf@.len() - j,
                {
                    let b = self.buf[j];
                    bytes.push(b);
                    proof {
                        assert(bytes@ =~= self.buf@.take(j + 1 as int));
                    }
                    j += 1;
                }
                proof {
                    assert(bytes@ =~= self.buf@);
                }
                match bytes_to_string(bytes) {
                    Some(s) => {
                        self.buf.clear();
                        self.current_line += 1;
                        Some(
                            Ok(
                                ReadLine {
                                    line_number: self.current_line,
                                    line_content: s,
                                },
                            ),
                        )
                    },
                    None => {
                        Some(
                            Err(
                                ReadError {
                                    message: crate::text::chars_to_string(
                                        &str_to_chars("invalid utf-8 in record"),
                                    ),
                                },
                            ),
                        )
                    },
                }
            } else {
                None
            }
        } else {
            self.match_index = 0;
            None
        }
    }

    /// Announce the end of the input. A residual record comes out if any
    /// bytes are pending; after that the reader stays exhausted.
    pub fn finish(&mut self) -> (r: Option<Result<ReadLine, ReadError>>)
        requires
            old(self).wf(),
            old(self).records_emitted() < usize::MAX,
        ensures
            final(self).wf(),
            final(self).eof_seen(),
            final(self).sep_bytes() == old(self).sep_bytes(),
            r matches Some(Ok(rl)) ==> rl.line_number == old(self).records_emitted() + 1
                && final(self).records_emitted() == old(self).records_emitted() + 1,
            !(r matches Some(Ok(_))) ==> final(self).records_emitted() == old(
                self,
            ).records_emitted(),
            old(self).pending().len() == 0 ==> r is None && final(self).pending() == old(
                self,
            ).pending(),
            old(self).pending().len() > 0 && valid_utf8(old(self).pending()) ==> (
            r matches Some(Ok(rl)) && rl.line_content@ == decode_utf8(old(self).pending())
                && final(self).pending().len() == 0),
            old(self).pending().len() > 0 && !valid_utf8(old(self).pending()) ==> (
            r matches Some(Err(_)) && final(self).pending() == old(self).pending()),
    {
        self.finished = true;
        if self.buf.len() == 0 {
            return None;
        }
        let mut bytes: Vec<u8> = Vec::new();
        let mut j: usize = 0;
        while j < self.buf.len()
            invariant
                0 <= j <= self.buf@.len(),
                bytes@ == self.buf@.take(j as int),
            decreases self.buf@.len() - j,
        {
            let b = self.buf[j];
            bytes.push(b);
            proof {
                assert(bytes@ =~= self.buf@.take(j + 1 as int));
            }
            j += 1;
        }
        proof {
            assert(bytes@ =~= self.buf@);
        }
        match bytes_to_string(bytes) {
            Some(s) => {
                self.buf.clear();
                self.match_index = 0;
                self.current_line += 1;
                Some(Ok(ReadLine { line_number: self.current_line, line_content: s }))
            },
            None => {
                Some(
                    Err(
                        ReadError {
                            message: crate::text::chars_to_string(
                                &str_to_chars("invalid utf-8 in record"),
                            ),
                        },
                    ),
                )
            },
        }
    }
}

} // verus!
