//! Encoding: from a typed top-level value to raw records and line bytes.
//!
//! The encoder walks one typed value and emits one record per field or map
//! entry, in declaration order; an internally tagged variant leads with its
//! tag record, and an absent optional field emits nothing. Only map-like
//! values can stand at the top: a bare scalar has no syntax in the format
//! and is rejected. Rendering records as escaped, encoded lines is the
//! `java_properties` crate's work, behind trusted wrappers.

use vstd::prelude::*;

use crate::model::{doc_view, Record, Scalar, ScalarV, TopValue, TopValueV};
use crate::TextEncoding;

pub mod string;

use string::{render_scalar, render_scalar_spec};

verus! {

/// An encoding error.
#[derive(Debug, Clone, PartialEq, Eq)]
pub enum Error {
    /// The underlying line sink refused a separator or failed to encode,
    /// reported by its message.
    Properties { msg: String },
    /// A structural failure with a free-text message.
    Custom { msg: String },
    /// The top-level value is not map-like: the format cannot hold it.
    NotAMap,
    /// The value requested a structural feature the flat format cannot
    /// represent.
    NotSupported,
}

/// The mathematical view of an encoding [`Error`].
pub enum ErrorV {
    Properties(Seq<char>),
    Custom(Seq<char>),
    NotAMap,
    NotSupported,
}

impl View for Error {
    type V = ErrorV;

    open spec fn view(&self) -> ErrorV {
        match self {
            Error::Properties { msg } => ErrorV::Properties(msg@),
            Error::Custom { msg } => ErrorV::Custom(msg@),
            Error::NotAMap => ErrorV::NotAMap,
            Error::NotSupported => ErrorV::NotSupported,
        }
    }
}

/// Whether `c` counts as separator whitespace: space, tab or form feed.
pub open spec fn is_sep_space(c: char) -> bool {
    c as int == 32 || c as int == 9 || c as int == 12
}

/// The number of `:` or `=` characters in `s`.
pub open spec fn sep_mark_count(s: Seq<char>) -> int
    decreases s.len(),
{
    if s.len() == 0 {
        0
    } else {
        sep_mark_count(s.drop_last()) + if s.last() == ':' || s.last() == '=' {
            1int
        } else {
            0int
        }
    }
}

/// Whether `s` is a valid key/value separator: non-empty, every character
/// separator whitespace or a `:`/`=` mark, with at most one mark. This is
/// exactly non-empty whitespace, or one `:` or `=` with optional whitespace
/// on either side.
pub open spec fn valid_separator(s: Seq<char>) -> bool {
    &&& s.len() > 0
    &&& sep_mark_count(s) <= 1
    &&& forall|i: int|
        0 <= i < s.len() ==> is_sep_space(#[trigger] s[i]) || s[i] == ':' || s[i] == '='
}

/// Check a key/value separator against [`valid_separator`].
#[verifier::loop_isolation(false)]
pub fn check_separator(s: &str) -> (r: bool)
    ensures
        r == valid_separator(s@),
{
    let n = s.unicode_len();
    if n == 0 {
        return false;
    }
    let mut marks: usize = 0;
    let mut i: usize = 0;
    while i < n
        invariant
            0 <= i <= n,
            n == s@.len(),
            marks == sep_mark_count(s@.take(i as int)),
            marks <= i,
            forall|k: int| 0 <= k < i ==> is_sep_space(#[trigger] s@[k]) || s@[k] == ':'
                || s@[k] == '=',
        decreases n - i,
    {
        let c = s.get_char(i);
        let cu = c as u32;
        proof {
            assert(s@.take(i + 1).drop_last() =~= s@.take(i as int));
            assert(s@.take(i + 1).last() == s@[i as int]);
        }
        if cu == 58 || cu == 61 {
            marks = marks + 1;
        } else if cu == 32 || cu == 9 || cu == 12 {
        } else {
            return false;
        }
        i = i + 1;
    }
    proof {
        assert(s@.take(n as int) =~= s@);
    }
    marks <= 1
}

/// A line ending style for the line sink.
#[derive(Clone, Copy, Debug, PartialEq, Eq, Structural)]
pub enum LineEnd {
    /// Carriage return alone.
    Cr,
    /// Line feed alone.
    Lf,
    /// Carriage return then line feed.
    CrLf,
}

/// The text of a line ending.
pub open spec fn eol_text(e: LineEnd) -> Seq<char> {
    match e {
        LineEnd::Cr => "\r"@,
        LineEnd::Lf => "\n"@,
        LineEnd::CrLf => "\r\n"@,
    }
}

/// The records a field list emits: one per present field, in order, with
/// the field encoder's rendering; an absent optional field emits nothing.
pub open spec fn emit_fields_spec(fs: Seq<(Seq<char>, Option<ScalarV>)>) -> Seq<
    (Seq<char>, Seq<char>),
>
    decreases fs.len(),
{
    if fs.len() == 0 {
        Seq::empty()
    } else {
        let head: Seq<(Seq<char>, Seq<char>)> = match fs[0].1 {
            Option::None => Seq::empty(),
            Option::Some(s) => seq![(fs[0].0, render_scalar_spec(s))],
        };
        head + emit_fields_spec(fs.drop_first())
    }
}

/// The records a map emits: each entry's key and value through the field
/// encoder, in entry order.
pub open spec fn emit_entries_spec(es: Seq<(ScalarV, ScalarV)>) -> Seq<(Seq<char>, Seq<char>)> {
    Seq::new(es.len(), |i: int| (render_scalar_spec(es[i].0), render_scalar_spec(es[i].1)))
}

/// What encoding a typed value yields: its records in order, or `NotAMap`
/// for a bare scalar. An absent optional at the top yields no records; a
/// present one is encoded as if unwrapped.
pub open spec fn encode_spec(v: TopValueV) -> Result<Seq<(Seq<char>, Seq<char>)>, ErrorV>
    decreases v,
{
    match v {
        TopValueV::Table(es) => Result::Ok(emit_entries_spec(es)),
        TopValueV::Rec(fs) => Result::Ok(emit_fields_spec(fs)),
        TopValueV::Tagged { tag, variant, fields } => Result::Ok(
            seq![(tag, variant)] + emit_fields_spec(fields),
        ),
        TopValueV::Maybe(inner) => match inner {
            Option::None => Result::Ok(Seq::empty()),
            Option::Some(b) => encode_spec(*b),
        },
        TopValueV::Bare(_) => Result::Err(ErrorV::NotAMap),
    }
}

/// The view of an encoding result.
pub open spec fn encode_result_view(r: Result<Vec<Record>, Error>) -> Result<
    Seq<(Seq<char>, Seq<char>)>,
    ErrorV,
> {
    match r {
        Result::Ok(recs) => Result::Ok(doc_view(recs@)),
        Result::Err(e) => Result::Err(e@),
    }
}

/// Emit the records of a field list.
#[verifier::loop_isolation(false)]
fn emit_fields(fields: &Vec<crate::model::FieldValue>, out: &mut Vec<Record>)
    ensures
        doc_view(final(out)@) == doc_view(old(out)@) + emit_fields_spec(
            crate::model::fields_view(fields@),
        ),
{
    let ghost fv = crate::model::fields_view(fields@);
    proof {
        assert(fv.skip(0) =~= fv);
    }
    let n = fields.len();
    let mut i: usize = 0;
    while i < n
        invariant
            0 <= i <= n,
            n == fv.len(),
            doc_view(out@) + emit_fields_spec(fv.skip(i as int)) =~= doc_view(old(out)@)
                + emit_fields_spec(fv),
        decreases n - i,
    {
        let ghost suffix = fv.skip(i as int);
        proof {
            assert(suffix[0] == fv[i as int]);
            assert(suffix.drop_first() =~= fv.skip(i + 1));
        }
        match &fields[i].value {
            Option::None => {},
            Option::Some(s) => {
                let rec = Record::new(fields[i].name.clone(), render_scalar(s));
                proof {
                    assert(doc_view(out@.push(rec)) =~= doc_view(out@).push(rec@));
                    assert(doc_view(out@).push(rec@) + emit_fields_spec(fv.skip(i + 1))
                        =~= doc_view(out@) + emit_fields_spec(suffix));
                }
                out.push(rec);
            },
        }
        i = i + 1;
    }
    proof {
        assert(fv.skip(n as int).len() == 0);
        assert(doc_view(out@) + emit_fields_spec(fv.skip(n as int)) =~= doc_view(out@));
    }
}

/// Encode one typed value as raw records, in field order.
pub fn encode(v: &TopValue) -> (r: Result<Vec<Record>, Error>)
    ensures
        encode_result_view(r) == encode_spec(v@),
    decreases v,
{
    match v {
        TopValue::Table(es) => {
            let ghost ev = crate::model::entries_view(es@);
            let mut out: Vec<Record> = Vec::new();
            let n = es.len();
            let mut i: usize = 0;
            while i < n
                invariant
                    0 <= i <= n,
                    n == ev.len(),
                    ev == crate::model::entries_view(es@),
                    doc_view(out@) =~= emit_entries_spec(ev.take(i as int)),
                decreases n - i,
            {
                let rec = Record::new(render_scalar(&es[i].key), render_scalar(&es[i].value));
                proof {
                    assert(doc_view(out@.push(rec)) =~= doc_view(out@).push(rec@));
                    assert(emit_entries_spec(ev.take(i + 1)) =~= emit_entries_spec(
                        ev.take(i as int),
                    ).push((render_scalar_spec(ev[i as int].0), render_scalar_spec(
                        ev[i as int].1,
                    ))));
                }
                out.push(rec);
                i = i + 1;
            }
            proof {
                assert(ev.take(n as int) =~= ev);
            }
            Result::Ok(out)
        },
        TopValue::Rec(fs) => {
            let mut out: Vec<Record> = Vec::new();
            emit_fields(fs, &mut out);
            proof {
                assert(doc_view(out@) =~= emit_fields_spec(crate::model::fields_view(fs@)));
            }
            Result::Ok(out)
        },
        TopValue::Tagged { tag, variant, fields } => {
            let mut out: Vec<Record> = Vec::new();
            out.push(Record::new(tag.clone(), variant.clone()));
            proof {
                assert(doc_view(out@) =~= seq![(tag@, variant@)]);
            }
            emit_fields(fields, &mut out);
            Result::Ok(out)
        },
        TopValue::Maybe(inner) => match inner {
            Option::None => {
                let out: Vec<Record> = Vec::new();
                proof {
                    assert(doc_view(out@) =~= Seq::<(Seq<char>, Seq<char>)>::empty());
                }
                Result::Ok(out)
            },
            Option::Some(b) => encode(&**b),
        },
        TopValue::Bare(_) => Result::Err(Error::NotAMap),
    }
}

/// What rendering one record as an escaped, windows-1252-encoded line
/// yields; a pure function of the texts.
pub uninterp spec fn latin1_line_bytes(
    key: Seq<char>,
    value: Seq<char>,
    sep: Seq<char>,
    eol: Seq<char>,
) -> Seq<u8>;

/// What rendering one record as an escaped, UTF-8-encoded line yields.
pub uninterp spec fn utf8_line_bytes(
    key: Seq<char>,
    value: Seq<char>,
    sep: Seq<char>,
    eol: Seq<char>,
) -> Seq<u8>;

/// The line bytes of one record under the chosen encoding.
pub open spec fn line_bytes(
    enc: TextEncoding,
    key: Seq<char>,
    value: Seq<char>,
    sep: Seq<char>,
    eol: Seq<char>,
) -> Seq<u8> {
    match enc {
        TextEncoding::Latin1 => latin1_line_bytes(key, value, sep, eol),
        TextEncoding::Utf8 => utf8_line_bytes(key, value, sep, eol),
    }
}

/// The bytes of a whole document: its records' lines in order.
pub open spec fn doc_bytes(
    enc: TextEncoding,
    recs: Seq<(Seq<char>, Seq<char>)>,
    sep: Seq<char>,
    eol: Seq<char>,
) -> Seq<u8>
    decreases recs.len(),
{
    if recs.len() == 0 {
        Seq::empty()
    } else {
        line_bytes(enc, recs[0].0, recs[0].1, sep, eol) + doc_bytes(
            enc,
            recs.drop_first(),
            sep,
            eol,
        )
    }
}

/// Relies on `java_properties::PropertiesWriter`: escaping one key/value
/// pair and writing it as one windows-1252-encoded line with the given
/// separator and line ending. Its source shows the call cannot fail here:
/// `set_kv_separator` accepts every separator that [`valid_separator`]
/// admits, a character the encoding cannot hold is written as an ASCII
/// escape the encoder always accepts, and a `Vec` sink raises no I/O error.
#[verifier::external_body]
fn write_line_latin1(key: &str, value: &str, sep: &str, ending: LineEnd) -> (r: Result<
    Vec<u8>,
    String,
>)
    requires
        valid_separator(sep@),
    ensures
        r is Ok,
        r matches Result::Ok(b) ==> b@ == latin1_line_bytes(key@, value@, sep@, eol_text(ending)),
{
    let mut buf: Vec<u8> = Vec::new();
    let mut w = java_properties::PropertiesWriter::new(&mut buf);
    w.set_kv_separator(sep).map_err(|e| e.to_string())?;
    w.set_line_ending(match ending {
        LineEnd::Cr => java_properties::LineEnding::CR,
        LineEnd::Lf => java_properties::LineEnding::LF,
        LineEnd::CrLf => java_properties::LineEnding::CRLF,
    });
    w.write(key, value).map_err(|e| e.to_string())?;
    w.finish().map_err(|e| e.to_string())?;
    Ok(buf)
}

/// Relies on `java_properties::PropertiesWriter::new_with_encoding` with
/// `encoding_rs::UTF_8`, as [`write_line_latin1`] does for windows-1252;
/// the UTF-8 encoder emits only valid UTF-8, so the line bytes are valid.
#[verifier::external_body]
fn write_line_utf8(key: &str, value: &str, sep: &str, ending: LineEnd) -> (r: Result<
    Vec<u8>,
    String,
>)
    requires
        valid_separator(sep@),
    ensures
        r is Ok,
        r matches Result::Ok(b) ==> b@ == utf8_line_bytes(key@, value@, sep@, eol_text(ending)),
        r matches Result::Ok(b) ==> vstd::utf8::valid_utf8(b@),
{
    let mut buf: Vec<u8> = Vec::new();
    let mut w = java_properties::PropertiesWriter::new_with_encoding(&mut buf, encoding_rs::UTF_8);
    w.set_kv_separator(sep).map_err(|e| e.to_string())?;
    w.set_line_ending(match ending {
        LineEnd::Cr => java_properties::LineEnding::CR,
        LineEnd::Lf => java_properties::LineEnding::LF,
        LineEnd::CrLf => java_properties::LineEnding::CRLF,
    });
    w.write(key, value).map_err(|e| e.to_string())?;
    w.finish().map_err(|e| e.to_string())?;
    Ok(buf)
}

/// Valid UTF-8 stays valid under concatenation: each byte sequence is a
/// whole number of scalar encodings, so the scalars of the first are read
/// off unchanged before the second begins.
proof fn lemma_valid_utf8_concat(a: Seq<u8>, b: Seq<u8>)
    requires
        vstd::utf8::valid_utf8(a),
        vstd::utf8::valid_utf8(b),
    ensures
        vstd::utf8::valid_utf8(a + b),
    decreases a.len(),
{
    if a.len() == 0 {
        assert(a + b =~= b);
    } else {
        let c = a + b;
        assert(forall|i: int| 0 <= i < a.len() ==> #[trigger] c[i] == a[i]);
        assert(vstd::utf8::valid_first_scalar(a));
        assert(vstd::utf8::valid_leading_and_continuation_bytes_first_codepoint(c));
        assert(vstd::utf8::decode_first_codepoint(c) == vstd::utf8::decode_first_codepoint(a));
        assert(vstd::utf8::length_of_first_codepoint(c) == vstd::utf8::length_of_first_codepoint(
            a,
        ));
        assert(vstd::utf8::valid_first_scalar(c));
        let l = vstd::utf8::length_of_first_scalar(a);
        assert(1 <= l <= a.len());
        assert(vstd::utf8::pop_first_scalar(c) =~= vstd::utf8::pop_first_scalar(a) + b);
        lemma_valid_utf8_concat(vstd::utf8::pop_first_scalar(a), b);
    }
}

/// The message reported for a refused separator.
pub open spec fn bad_separator_msg(sep: Seq<char>) -> Seq<char> {
    "bad key/value separator `"@ + sep + "`"@
}

/// Serialize typed values to an in-memory byte document.
///
/// The separator, line ending and character encoding are the line sink's
/// configuration; the default is `=`, a line feed, and the 8-bit encoding.
pub struct Serializer {
    pub out: Vec<u8>,
    pub sep: String,
    pub ending: LineEnd,
    pub enc: TextEncoding,
}

impl Serializer {
    /// Whether the configuration is sound: the separator is valid.
    pub open spec fn wf(self) -> bool {
        valid_separator(self.sep@)
    }

    /// A serializer writing in the default 8-bit encoding.
    pub fn new() -> (r: Serializer)
        ensures
            r.out@ == Seq::<u8>::empty(),
            r.sep@ == "="@,
            r.ending == LineEnd::Lf,
            r.enc == TextEncoding::Latin1,
            r.wf(),
    {
        Self::new_with_encoding(TextEncoding::Latin1)
    }

    /// A serializer writing in the given encoding.
    pub fn new_with_encoding(enc: TextEncoding) -> (r: Serializer)
        ensures
            r.out@ == Seq::<u8>::empty(),
            r.sep@ == "="@,
            r.ending == LineEnd::Lf,
            r.enc == enc,
            r.wf(),
    {
        let sep: String = "=".to_owned();
        proof {
            reveal_strlit("=");
            assert(sep@.len() == 1 && sep@[0] == '=');
            assert(sep@.drop_last() =~= Seq::<char>::empty());
            assert(sep@.last() == '=');
            assert(sep_mark_count(sep@) == sep_mark_count(sep@.drop_last()) + 1);
            assert(sep_mark_count(sep@) == 1);
            assert(valid_separator(sep@));
        }
        Serializer { out: Vec::new(), sep, ending: LineEnd::Lf, enc }
    }

    /// Set the key/value separator.
    ///
    /// An invalid separator is refused before any line is written: the
    /// configuration and the output stay as they were.
    pub fn set_kv_separator(&mut self, separator: &str) -> (r: Result<(), Error>)
        ensures
            final(self).out == old(self).out,
            final(self).ending == old(self).ending,
            final(self).enc == old(self).enc,
            valid_separator(separator@) ==> r is Ok && final(self).sep@ == separator@,
            !valid_separator(separator@) ==> {
                &&& r matches Result::Err(e) && e@ == ErrorV::Properties(
                    bad_separator_msg(separator@),
                )
                &&& final(self).sep == old(self).sep
            },
    {
        if check_separator(separator) {
            self.sep = separator.to_owned();
            Result::Ok(())
        } else {
            let msg = "bad key/value separator `".to_owned().concat(separator).concat("`");
            Result::Err(Error::Properties { msg })
        }
    }

    /// Set the line ending.
    pub fn set_line_ending(&mut self, ending: LineEnd)
        ensures
            final(self).out == old(self).out,
            final(self).sep == old(self).sep,
            final(self).enc == old(self).enc,
            final(self).ending == ending,
    {
        self.ending = ending;
    }

    /// Encode one typed value and write its records to the output.
    ///
    /// A value the format cannot hold is refused before any line is
    /// written; on every encodable value the whole document is written and
    /// the call succeeds, since the line sink is an in-memory buffer that
    /// cannot fail. UTF-8 output keeps the buffer valid UTF-8.
    #[verifier::loop_isolation(false)]
    pub fn serialize(&mut self, v: &TopValue) -> (r: Result<(), Error>)
        requires
            old(self).wf(),
        ensures
            final(self).sep == old(self).sep,
            final(self).ending == old(self).ending,
            final(self).enc == old(self).enc,
            final(self).wf(),
            match encode_spec(v@) {
                Result::Err(e) => r matches Result::Err(e2) && e2@ == e && final(self).out
                    == old(self).out,
                Result::Ok(recs) => r is Ok && final(self).out@ == old(self).out@ + doc_bytes(
                    final(self).enc,
                    recs,
                    final(self).sep@,
                    eol_text(final(self).ending),
                ),
            },
            old(self).enc == TextEncoding::Utf8 && vstd::utf8::valid_utf8(old(self).out@)
                ==> vstd::utf8::valid_utf8(final(self).out@),
    {
        let recs = match encode(v) {
            Result::Ok(recs) => recs,
            Result::Err(e) => {
                return Result::Err(e);
            },
        };
        let ghost d = doc_view(recs@);
        let ghost eol = eol_text(self.ending);
        proof {
            assert(d.skip(0) =~= d);
        }
        let n = recs.len();
        let mut i: usize = 0;
        while i < n
            invariant
                0 <= i <= n,
                n == d.len(),
                self.sep == old(self).sep,
                self.ending == old(self).ending,
                self.enc == old(self).enc,
                old(self).out@ + doc_bytes(self.enc, d, self.sep@, eol) =~= self.out@
                    + doc_bytes(self.enc, d.skip(i as int), self.sep@, eol),
                self.enc == TextEncoding::Utf8 && vstd::utf8::valid_utf8(old(self).out@)
                    ==> vstd::utf8::valid_utf8(self.out@),
            decreases n - i,
        {
            let ghost suffix = d.skip(i as int);
            proof {
                assert(suffix[0] == d[i as int]);
                assert(suffix.drop_first() =~= d.skip(i + 1));
            }
            let line = match self.enc {
                TextEncoding::Latin1 => write_line_latin1(
                    recs[i].key.as_str(),
                    recs[i].value.as_str(),
                    self.sep.as_str(),
                    self.ending,
                ),
                TextEncoding::Utf8 => write_line_utf8(
                    recs[i].key.as_str(),
                    recs[i].value.as_str(),
                    self.sep.as_str(),
                    self.ending,
                ),
            };
            match line {
                Result::Ok(mut b) => {
                    proof {
                        if self.enc == TextEncoding::Utf8 && vstd::utf8::valid_utf8(
                            old(self).out@,
                        ) {
                            assert(vstd::utf8::valid_utf8(b@));
                            lemma_valid_utf8_concat(self.out@, b@);
                        }
                        assert(b@ == line_bytes(self.enc, d[i as int].0, d[i as int].1,
                            self.sep@, eol));
                        assert((self.out@ + b@) + doc_bytes(self.enc, d.skip(i + 1), self.sep@,
                            eol) =~= self.out@ + (b@ + doc_bytes(self.enc, d.skip(i + 1),
                            self.sep@, eol)));
                    }
                    self.out.append(&mut b);
                },
                Result::Err(_) => {
                    proof {
                        assert(false);
                    }
                    vstd::pervasive::unreached()
                },
            }
            i = i + 1;
        }
        proof {
            assert(d.skip(n as int).len() == 0);
            assert(self.out@ + doc_bytes(self.enc, d.skip(n as int), self.sep@, eol)
                =~= self.out@);
        }
        Result::Ok(())
    }

    /// Hand back the bytes written so far.
    pub fn into_bytes(self) -> (r: Vec<u8>)
        ensures
            r == self.out,
    {
        self.out
    }

    /// Start a map pass: keys and values then arrive in alternation.
    pub fn serialize_map(self) -> (r: MapSerializer)
        ensures
            r.ser == self,
            r.key is None,
    {
        MapSerializer { ser: self, key: Option::None }
    }
}

/// The write side of one map pass: a two-state cursor that takes a key,
/// then the value to write under it.
pub struct MapSerializer {
    pub ser: Serializer,
    pub key: Option<String>,
}

impl MapSerializer {
    /// The key step: render one scalar as the pending key.
    pub fn serialize_key(&mut self, key: &Scalar)
        ensures
            final(self).ser == old(self).ser,
            final(self).key matches Option::Some(k) && k@ == render_scalar_spec(key@),
    {
        self.key = Option::Some(render_scalar(key));
    }

    /// The value step: write one record under the pending key. The record
    /// is always written: the line sink is an in-memory buffer that cannot
    /// fail.
    ///
    /// Calling this without a preceding key step is caller misuse, not a
    /// recoverable input error, so the contract rules it out.
    pub fn serialize_value(&mut self, value: &Scalar) -> (r: Result<(), Error>)
        requires
            old(self).key is Some,
            old(self).ser.wf(),
        ensures
            r is Ok,
            final(self).key is None,
            final(self).ser.sep == old(self).ser.sep,
            final(self).ser.ending == old(self).ser.ending,
            final(self).ser.enc == old(self).ser.enc,
            final(self).ser.wf(),
            final(self).ser.out@ == old(self).ser.out@ + line_bytes(
                old(self).ser.enc,
                old(self).key->Some_0@,
                render_scalar_spec(value@),
                old(self).ser.sep@,
                eol_text(old(self).ser.ending),
            ),
    {
        let v = render_scalar(value);
        let line = match &self.key {
            Option::Some(k) => match self.ser.enc {
                TextEncoding::Latin1 => write_line_latin1(
                    k.as_str(),
                    v.as_str(),
                    self.ser.sep.as_str(),
                    self.ser.ending,
                ),
                TextEncoding::Utf8 => write_line_utf8(
                    k.as_str(),
                    v.as_str(),
                    self.ser.sep.as_str(),
                    self.ser.ending,
                ),
            },
            Option::None => {
                proof {
                    assert(false);
                }
                vstd::pervasive::unreached()
            },
        };
        self.key = Option::None;
        match line {
            Result::Ok(mut b) => {
                self.ser.out.append(&mut b);
                Result::Ok(())
            },
            Result::Err(_) => {
                proof {
                    assert(false);
                }
                vstd::pervasive::unreached()
            },
        }
    }

    /// Finish the map pass and hand the serializer back.
    pub fn end(self) -> (r: Serializer)
        ensures
            r == self.ser,
    {
        self.ser
    }
}

} // verus!
