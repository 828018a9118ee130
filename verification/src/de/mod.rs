//! Decoding: from an ordered sequence of raw records to a typed value.
//!
//! The decoder consumes the records through a two-state cursor (a key step
//! followed by a value step), routes each raw string through the field
//! decoder with the field's static hint, and reconstructs the caller's
//! target shape. Duplicate keys overwrite: the last occurrence wins, at the
//! position of the first, following map-insertion semantics.

use vstd::prelude::*;

use crate::model::{
    doc_view, entries_view, fields_view, opt_scalar_view, FieldShape, FieldValue, Hint, MapEntry,
    Record, Scalar, ScalarV, Shape, TopValue, TopValueV, VariantShape,
};

pub mod field;

use field::{decode_field, field_decode_spec};
use vstd::pervasive::VecAdditionalExecFns;
use vstd::string::StringSliceAdditionalSpecFns;

verus! {

/// What tokenizing a windows-1252-encoded byte stream into key/value
/// records yields, comments dropped, or nothing when a line is malformed;
/// a pure function of the bytes.
pub uninterp spec fn latin1_lines(bytes: Seq<u8>) -> Option<Seq<(Seq<char>, Seq<char>)>>;

/// What tokenizing a UTF-8-encoded byte stream into key/value records
/// yields, comments dropped, or nothing when a line is malformed.
pub uninterp spec fn utf8_lines(bytes: Seq<u8>) -> Option<Seq<(Seq<char>, Seq<char>)>>;

/// A decoding error.
#[derive(Debug, Clone, PartialEq, Eq)]
pub enum Error {
    /// A structural failure with a free-text message: a missing field or
    /// tag, an unknown variant, or a value requested out of turn.
    Custom { msg: String },
    /// The underlying line source failed to parse a line, reported by its
    /// message.
    Properties { msg: String },
    /// A field with an integer hint failed to parse; carries the raw text.
    ParseIntError { text: String },
    /// A field with a float hint failed to parse; carries the raw text.
    ParseFloatError { text: String },
    /// A field with a boolean hint failed to parse; carries the raw text.
    ParseBoolError { text: String },
    /// The target requested a structural feature the flat format cannot
    /// represent.
    NotSupported,
}

/// The mathematical view of a decoding [`Error`].
pub enum ErrorV {
    Custom(Seq<char>),
    Properties(Seq<char>),
    ParseInt(Seq<char>),
    ParseFloat(Seq<char>),
    ParseBool(Seq<char>),
    NotSupported,
}

impl View for Error {
    type V = ErrorV;

    open spec fn view(&self) -> ErrorV {
        match self {
            Error::Custom { msg } => ErrorV::Custom(msg@),
            Error::Properties { msg } => ErrorV::Properties(msg@),
            Error::ParseIntError { text } => ErrorV::ParseInt(text@),
            Error::ParseFloatError { text } => ErrorV::ParseFloat(text@),
            Error::ParseBoolError { text } => ErrorV::ParseBool(text@),
            Error::NotSupported => ErrorV::NotSupported,
        }
    }
}

/// The view of a field-decoding result.
pub open spec fn value_result_view(r: Result<Option<Scalar>, Error>) -> Result<
    Option<ScalarV>,
    ErrorV,
> {
    match r {
        Result::Ok(o) => Result::Ok(opt_scalar_view(o)),
        Result::Err(e) => Result::Err(e@),
    }
}

/// The view of a whole-document decoding result.
pub open spec fn decode_result_view(r: Result<TopValue, Error>) -> Result<TopValueV, ErrorV> {
    match r {
        Result::Ok(v) => Result::Ok(v@),
        Result::Err(e) => Result::Err(e@),
    }
}

/// The message reported when a value step precedes any key step.
pub open spec fn no_pending_value_msg() -> Seq<char> {
    "value requested before a key was read"@
}

/// The message reported when a struct field never receives a record.
pub open spec fn missing_field_msg(name: Seq<char>) -> Seq<char> {
    "missing field `"@ + name + "`"@
}

/// The message reported when a tagged document does not start with the tag.
pub open spec fn missing_tag_msg(tag: Seq<char>) -> Seq<char> {
    "missing tag `"@ + tag + "`"@
}

/// Update an entry list under map-insertion semantics: an existing key keeps
/// its position and takes the new value, a new key is appended.
pub open spec fn upsert(es: Seq<(ScalarV, ScalarV)>, k: ScalarV, v: ScalarV) -> Seq<
    (ScalarV, ScalarV),
>
    decreases es.len(),
{
    if es.len() == 0 {
        seq![(k, v)]
    } else if es[0].0 == k {
        seq![(k, v)] + es.drop_first()
    } else {
        seq![es[0]] + upsert(es.drop_first(), k, v)
    }
}

/// What decoding the remaining records into a map yields: each value coerced
/// under the map's value hint, entries combined by [`upsert`]; an absent
/// optional value adds no entry.
pub open spec fn walk_map_spec(
    rest: Seq<(Seq<char>, Seq<char>)>,
    h: Hint,
    acc: Seq<(ScalarV, ScalarV)>,
) -> Result<Seq<(ScalarV, ScalarV)>, ErrorV>
    decreases rest.len(),
{
    if rest.len() == 0 {
        Result::Ok(acc)
    } else {
        match field_decode_spec(rest[0].1, h) {
            Result::Err(e) => Result::Err(e),
            Result::Ok(Option::None) => walk_map_spec(rest.drop_first(), h, acc),
            Result::Ok(Option::Some(sv)) => walk_map_spec(
                rest.drop_first(),
                h,
                upsert(acc, ScalarV::Str(rest[0].0), sv),
            ),
        }
    }
}

/// The first field whose name is `k`, or `-1` when none matches.
pub open spec fn field_index(fields: Seq<FieldShape>, k: Seq<char>) -> int
    decreases fields.len(),
{
    if fields.len() == 0 {
        -1
    } else if fields[0].name@ == k {
        0
    } else {
        let r = field_index(fields.drop_first(), k);
        if r == -1 {
            -1
        } else {
            r + 1
        }
    }
}

/// The first variant whose name is `k`, or `-1` when none matches.
pub open spec fn variant_index(variants: Seq<VariantShape>, k: Seq<char>) -> int
    decreases variants.len(),
{
    if variants.len() == 0 {
        -1
    } else if variants[0].name@ == k {
        0
    } else {
        let r = variant_index(variants.drop_first(), k);
        if r == -1 {
            -1
        } else {
            r + 1
        }
    }
}

/// What walking the remaining records over a struct's fields yields: each
/// record whose key names a field assigns that field's slot (the last
/// occurrence wins), records with unknown keys are ignored.
pub open spec fn walk_struct_spec(
    rest: Seq<(Seq<char>, Seq<char>)>,
    fields: Seq<FieldShape>,
    slots: Seq<Option<Option<ScalarV>>>,
) -> Result<Seq<Option<Option<ScalarV>>>, ErrorV>
    decreases rest.len(),
{
    if rest.len() == 0 {
        Result::Ok(slots)
    } else {
        let j = field_index(fields, rest[0].0);
        if j == -1 {
            walk_struct_spec(rest.drop_first(), fields, slots)
        } else {
            match field_decode_spec(rest[0].1, fields[j].hint) {
                Result::Err(e) => Result::Err(e),
                Result::Ok(opt) => walk_struct_spec(
                    rest.drop_first(),
                    fields,
                    slots.update(j, Option::Some(opt)),
                ),
            }
        }
    }
}

/// Whether a hint admits an absent value.
pub open spec fn is_optional_hint(h: Hint) -> bool {
    h matches Hint::Optional(_)
}

/// What finishing a struct walk yields: an unassigned optional field is
/// absent, any other unassigned field is a missing-field error.
pub open spec fn finalize_fields_spec(
    fields: Seq<FieldShape>,
    slots: Seq<Option<Option<ScalarV>>>,
) -> Result<Seq<(Seq<char>, Option<ScalarV>)>, ErrorV>
    decreases fields.len(),
{
    if fields.len() == 0 {
        Result::Ok(Seq::empty())
    } else {
        let head: Result<(Seq<char>, Option<ScalarV>), ErrorV> = match slots[0] {
            Option::Some(opt) => Result::Ok((fields[0].name@, opt)),
            Option::None => if is_optional_hint(fields[0].hint) {
                Result::Ok((fields[0].name@, Option::None))
            } else {
                Result::Err(ErrorV::Custom(missing_field_msg(fields[0].name@)))
            },
        };
        match head {
            Result::Err(e) => Result::Err(e),
            Result::Ok(p) => match finalize_fields_spec(
                fields.drop_first(),
                slots.drop_first(),
            ) {
                Result::Err(e) => Result::Err(e),
                Result::Ok(tail) => Result::Ok(seq![p] + tail),
            },
        }
    }
}

/// What decoding the remaining records over a struct's fields yields.
pub open spec fn decode_struct_spec(
    rest: Seq<(Seq<char>, Seq<char>)>,
    fields: Seq<FieldShape>,
) -> Result<Seq<(Seq<char>, Option<ScalarV>)>, ErrorV> {
    match walk_struct_spec(rest, fields, Seq::new(fields.len(), |i: int| Option::None)) {
        Result::Err(e) => Result::Err(e),
        Result::Ok(slots) => finalize_fields_spec(fields, slots),
    }
}

/// What decoding a document into a shape yields.
///
/// A map shape folds every record in; a struct shape fills named fields and
/// reports a missing non-optional field; an enum shape reads the tag from
/// the first record, resolves the variant by exact match, and fills that
/// variant's fields from the rest; an optional shape decodes an empty
/// document to the absent value and otherwise wraps the inner decode.
pub open spec fn decode_spec(doc: Seq<(Seq<char>, Seq<char>)>, shape: Shape) -> Result<
    TopValueV,
    ErrorV,
>
    decreases shape,
{
    match shape {
        Shape::MapOf(h) => match walk_map_spec(doc, h, Seq::empty()) {
            Result::Err(e) => Result::Err(e),
            Result::Ok(es) => Result::Ok(TopValueV::Table(es)),
        },
        Shape::StructOf(fields) => match decode_struct_spec(doc, fields@) {
            Result::Err(e) => Result::Err(e),
            Result::Ok(fs) => Result::Ok(TopValueV::Rec(fs)),
        },
        Shape::EnumOf { tag, variants } => if doc.len() == 0 || doc[0].0 != tag@ {
            Result::Err(ErrorV::Custom(missing_tag_msg(tag@)))
        } else {
            let j = variant_index(variants@, doc[0].1);
            if j == -1 {
                Result::Err(ErrorV::Custom(field::unknown_variant_msg(doc[0].1)))
            } else {
                match decode_struct_spec(doc.drop_first(), variants@[j].fields@) {
                    Result::Err(e) => Result::Err(e),
                    Result::Ok(fs) => Result::Ok(
                        TopValueV::Tagged { tag: tag@, variant: doc[0].1, fields: fs },
                    ),
                }
            }
        },
        Shape::OptionOf(inner) => if doc.len() == 0 {
            Result::Ok(TopValueV::Maybe(Option::None))
        } else {
            match decode_spec(doc, *inner) {
                Result::Err(e) => Result::Err(e),
                Result::Ok(v) => Result::Ok(TopValueV::Maybe(Option::Some(Box::new(v)))),
            }
        },
    }
}

/// When the first match sits at `i`, [`upsert`] updates in place.
proof fn lemma_upsert_found(es: Seq<(ScalarV, ScalarV)>, k: ScalarV, v: ScalarV, i: int)
    requires
        0 <= i < es.len(),
        es[i].0 == k,
        forall|j: int| 0 <= j < i ==> (#[trigger] es[j]).0 != k,
    ensures
        upsert(es, k, v) =~= es.update(i, (k, v)),
    decreases i,
{
    if i == 0 {
    } else {
        let t = es.drop_first();
        assert(forall|j: int| 0 <= j < i - 1 ==> #[trigger] t[j] == es[j + 1]);
        lemma_upsert_found(t, k, v, i - 1);
    }
}

/// When no key matches, [`upsert`] appends.
proof fn lemma_upsert_absent(es: Seq<(ScalarV, ScalarV)>, k: ScalarV, v: ScalarV)
    requires
        forall|j: int| 0 <= j < es.len() ==> (#[trigger] es[j]).0 != k,
    ensures
        upsert(es, k, v) =~= es.push((k, v)),
    decreases es.len(),
{
    if es.len() > 0 {
        let t = es.drop_first();
        assert(forall|j: int| 0 <= j < t.len() ==> #[trigger] t[j] == es[j + 1]);
        lemma_upsert_absent(t, k, v);
    }
}

/// A match at `i`, with none earlier, is what [`field_index`] finds.
pub(crate) proof fn lemma_field_index_found(fields: Seq<FieldShape>, k: Seq<char>, i: int)
    requires
        0 <= i < fields.len(),
        fields[i].name@ == k,
        forall|j: int| 0 <= j < i ==> (#[trigger] fields[j]).name@ != k,
    ensures
        field_index(fields, k) == i,
    decreases i,
{
    if i > 0 {
        let t = fields.drop_first();
        assert(forall|j: int| 0 <= j < i - 1 ==> #[trigger] t[j] == fields[j + 1]);
        lemma_field_index_found(t, k, i - 1);
    }
}

/// With no match at all, [`field_index`] reports `-1`.
proof fn lemma_field_index_none(fields: Seq<FieldShape>, k: Seq<char>)
    requires
        forall|j: int| 0 <= j < fields.len() ==> (#[trigger] fields[j]).name@ != k,
    ensures
        field_index(fields, k) == -1,
    decreases fields.len(),
{
    if fields.len() > 0 {
        let t = fields.drop_first();
        assert(forall|j: int| 0 <= j < t.len() ==> #[trigger] t[j] == fields[j + 1]);
        lemma_field_index_none(t, k);
    }
}

/// `field_index` stays inside the field list and finds a true match.
proof fn lemma_field_index_range(fields: Seq<FieldShape>, k: Seq<char>)
    ensures
        field_index(fields, k) == -1 || (0 <= field_index(fields, k) < fields.len()
            && fields[field_index(fields, k)].name@ == k),
    decreases fields.len(),
{
    if fields.len() > 0 && fields[0].name@ != k {
        lemma_field_index_range(fields.drop_first(), k);
    }
}

/// A match at `i`, with none earlier, is what [`variant_index`] finds.
proof fn lemma_variant_index_found(variants: Seq<VariantShape>, k: Seq<char>, i: int)
    requires
        0 <= i < variants.len(),
        variants[i].name@ == k,
        forall|j: int| 0 <= j < i ==> (#[trigger] variants[j]).name@ != k,
    ensures
        variant_index(variants, k) == i,
    decreases i,
{
    if i > 0 {
        let t = variants.drop_first();
        assert(forall|j: int| 0 <= j < i - 1 ==> #[trigger] t[j] == variants[j + 1]);
        lemma_variant_index_found(t, k, i - 1);
    }
}

/// With no match at all, [`variant_index`] reports `-1`.
proof fn lemma_variant_index_none(variants: Seq<VariantShape>, k: Seq<char>)
    requires
        forall|j: int| 0 <= j < variants.len() ==> (#[trigger] variants[j]).name@ != k,
    ensures
        variant_index(variants, k) == -1,
    decreases variants.len(),
{
    if variants.len() > 0 {
        let t = variants.drop_first();
        assert(forall|j: int| 0 <= j < t.len() ==> #[trigger] t[j] == variants[j + 1]);
        lemma_variant_index_none(t, k);
    }
}

/// Replace the entry whose key is `key`, keeping its position, or append.
#[verifier::loop_isolation(false)]
fn upsert_entry(entries: &mut Vec<MapEntry>, key: String, value: Scalar)
    ensures
        entries_view(final(entries)@) == upsert(
            entries_view(old(entries)@),
            ScalarV::Str(key@),
            value@,
        ),
{
    let n = entries.len();
    let mut i: usize = 0;
    while i < n
        invariant
            0 <= i <= n,
            entries == old(entries),
            forall|j: int| 0 <= j < i ==> (#[trigger] entries_view(entries@)[j]).0
                != ScalarV::Str(key@),
        decreases n - i,
    {
        let hit = match &entries[i].key {
            Scalar::Str(s) => *s == key,
            _ => false,
        };
        if hit {
            proof {
                lemma_upsert_found(
                    entries_view(entries@),
                    ScalarV::Str(key@),
                    value@,
                    i as int,
                );
            }
            entries.set(i, MapEntry { key: Scalar::Str(key), value });
            proof {
                assert(entries_view(entries@) =~= entries_view(
                    old(entries)@,
                ).update(i as int, (ScalarV::Str(key@), value@)));
            }
            return;
        }
        proof {
            assert((entries_view(entries@)[i as int]).0 != ScalarV::Str(key@));
        }
        i = i + 1;
    }
    proof {
        lemma_upsert_absent(entries_view(entries@), ScalarV::Str(key@), value@);
    }
    entries.push(MapEntry { key: Scalar::Str(key), value });
    proof {
        assert(entries_view(entries@) =~= entries_view(
            old(entries)@,
        ).push((ScalarV::Str(key@), value@)));
    }
}

/// Relies on `java_properties::PropertiesIter::read_into`: tokenizing the
/// byte stream as windows-1252 properties lines, unescaping each, dropping
/// comments, and handing key/value pairs over in line order; on a malformed
/// line it reports the error, whose message is returned.
#[verifier::external_body]
fn read_lines_latin1(bytes: &[u8]) -> (r: Result<Vec<Record>, String>)
    ensures
        match r {
            Result::Ok(recs) => latin1_lines(bytes@) == Option::Some(doc_view(recs@)),
            Result::Err(_) => latin1_lines(bytes@) is None,
        },
{
    let mut out: Vec<Record> = Vec::new();
    let mut it = java_properties::PropertiesIter::new(bytes);
    match it.read_into(|k, v| out.push(Record::new(k, v))) {
        Ok(()) => Ok(out),
        Err(e) => Err(e.to_string()),
    }
}

/// Relies on `java_properties::PropertiesIter::new_with_encoding` with
/// `encoding_rs::UTF_8`, as [`read_lines_latin1`] does for windows-1252.
#[verifier::external_body]
fn read_lines_utf8(bytes: &[u8]) -> (r: Result<Vec<Record>, String>)
    ensures
        match r {
            Result::Ok(recs) => utf8_lines(bytes@) == Option::Some(doc_view(recs@)),
            Result::Err(_) => utf8_lines(bytes@) is None,
        },
{
    let mut out: Vec<Record> = Vec::new();
    let mut it = java_properties::PropertiesIter::new_with_encoding(bytes, encoding_rs::UTF_8);
    match it.read_into(|k, v| out.push(Record::new(k, v))) {
        Ok(()) => Ok(out),
        Err(e) => Err(e.to_string()),
    }
}

/// What tokenizing a byte stream yields under the chosen encoding.
pub open spec fn lines_of(enc: crate::TextEncoding, bytes: Seq<u8>) -> Option<
    Seq<(Seq<char>, Seq<char>)>,
> {
    match enc {
        crate::TextEncoding::Latin1 => latin1_lines(bytes),
        crate::TextEncoding::Utf8 => utf8_lines(bytes),
    }
}

/// The view of the field slots a struct walk fills.
pub open spec fn slots_view(s: Seq<Option<Option<Scalar>>>) -> Seq<Option<Option<ScalarV>>> {
    Seq::new(
        s.len(),
        |i: int|
            match s[i] {
                Option::Some(Option::Some(sc)) => Option::Some(Option::Some(sc@)),
                Option::Some(Option::None) => Option::Some(Option::None),
                Option::None => Option::None,
            },
    )
}

/// The streaming source of one decode pass: an ordered record sequence and
/// a two-state cursor over it.
///
/// A key step hands out the next key and stashes its value; a value step
/// hands the stashed value to the field decoder. A value step without a
/// stashed value reports a usage error rather than reading stale state.
pub struct Deserializer {
    pub records: Vec<Record>,
    pub pos: usize,
    pub pending: Option<String>,
}

impl Deserializer {
    /// Start a pass over the given records.
    pub fn from_records(records: Vec<Record>) -> (r: Deserializer)
        ensures
            r.records == records,
            r.pos == 0,
            r.pending is None,
    {
        Deserializer { records, pos: 0, pending: Option::None }
    }

    /// Start a pass over the records of a windows-1252-encoded byte slice.
    ///
    /// The byte-slice entry points default to the 8-bit encoding the Java
    /// format specifies; a Rust string's bytes want [`Deserializer::from_str`]
    /// instead, which reads UTF-8.
    pub fn from_slice(input: &[u8]) -> (r: Result<Deserializer, Error>)
        ensures
            match r {
                Result::Ok(d) => {
                    &&& latin1_lines(input@) == Option::Some(doc_view(d.records@))
                    &&& d.pos == 0
                    &&& d.pending is None
                },
                Result::Err(e) => latin1_lines(input@) is None && e@ matches ErrorV::Properties(
                    _,
                ),
            },
    {
        match read_lines_latin1(input) {
            Result::Ok(recs) => Result::Ok(Self::from_records(recs)),
            Result::Err(msg) => Result::Err(Error::Properties { msg }),
        }
    }

    /// Start a pass over the records of a byte slice in the given encoding.
    pub fn from_slice_with_encoding(input: &[u8], enc: crate::TextEncoding) -> (r: Result<
        Deserializer,
        Error,
    >)
        ensures
            match r {
                Result::Ok(d) => {
                    &&& lines_of(enc, input@) == Option::Some(doc_view(d.records@))
                    &&& d.pos == 0
                    &&& d.pending is None
                },
                Result::Err(e) => lines_of(enc, input@) is None && e@ matches ErrorV::Properties(
                    _,
                ),
            },
    {
        let lines = match enc {
            crate::TextEncoding::Latin1 => read_lines_latin1(input),
            crate::TextEncoding::Utf8 => read_lines_utf8(input),
        };
        match lines {
            Result::Ok(recs) => Result::Ok(Self::from_records(recs)),
            Result::Err(msg) => Result::Err(Error::Properties { msg }),
        }
    }

    /// Start a pass over the records of a string, read as UTF-8.
    pub fn from_str(input: &str) -> (r: Result<Deserializer, Error>)
        ensures
            match r {
                Result::Ok(d) => {
                    &&& utf8_lines(input.spec_bytes()) == Option::Some(doc_view(d.records@))
                    &&& d.pos == 0
                    &&& d.pending is None
                },
                Result::Err(e) => utf8_lines(input.spec_bytes()) is None
                    && e@ matches ErrorV::Properties(_),
            },
    {
        match read_lines_utf8(input.as_bytes()) {
            Result::Ok(recs) => Result::Ok(Self::from_records(recs)),
            Result::Err(msg) => Result::Err(Error::Properties { msg }),
        }
    }

    /// The key step: the next record's key, or nothing at the end of the
    /// document; its value is stashed for the value step.
    pub fn next_key(&mut self) -> (r: Option<String>)
        ensures
            final(self).records == old(self).records,
            old(self).pos < old(self).records@.len() ==> {
                &&& r matches Option::Some(k) && k@ == old(self).records@[old(
                    self,
                ).pos as int].key@
                &&& final(self).pos == old(self).pos + 1
                &&& final(self).pending matches Option::Some(v) && v@ == old(self).records@[old(
                    self,
                ).pos as int].value@
            },
            old(self).pos >= old(self).records@.len() ==> r is None && *final(self) == *old(self),
    {
        if self.pos < self.records.len() {
            let k = self.records[self.pos].key.clone();
            let v = self.records[self.pos].value.clone();
            self.pending = Option::Some(v);
            self.pos = self.pos + 1;
            Option::Some(k)
        } else {
            Option::None
        }
    }

    /// The value step: the stashed value coerced under `hint`. Without a
    /// stashed value this is a usage error, reported as such.
    pub fn next_value(&mut self, hint: &Hint) -> (r: Result<Option<Scalar>, Error>)
        ensures
            final(self).records == old(self).records,
            final(self).pos == old(self).pos,
            final(self).pending is None,
            match old(self).pending {
                Option::Some(v) => value_result_view(r) == field_decode_spec(v@, *hint),
                Option::None => r matches Result::Err(e) && e@ == ErrorV::Custom(
                    no_pending_value_msg(),
                ),
            },
    {
        let r = match &self.pending {
            Option::Some(v) => decode_field(v.as_str(), hint),
            Option::None => Result::Err(
                Error::Custom { msg: "value requested before a key was read".to_owned() },
            ),
        };
        self.pending = Option::None;
        r
    }

    /// Decode the remaining records as map entries under the value hint.
    #[verifier::loop_isolation(false)]
    fn decode_map(&mut self, h: &Hint) -> (r: Result<Vec<MapEntry>, Error>)
        requires
            old(self).pending is None,
            old(self).pos <= old(self).records@.len(),
        ensures
            match r {
                Result::Ok(es) => walk_map_spec(
                    doc_view(old(self).records@).skip(old(self).pos as int),
                    *h,
                    Seq::empty(),
                ) == Result::<_, ErrorV>::Ok(entries_view(es@)),
                Result::Err(e) => walk_map_spec(
                    doc_view(old(self).records@).skip(old(self).pos as int),
                    *h,
                    Seq::empty(),
                ) == Result::<Seq<(ScalarV, ScalarV)>, ErrorV>::Err(e@),
            },
    {
        let ghost d = doc_view(old(self).records@);
        let ghost goal = walk_map_spec(d.skip(old(self).pos as int), *h, Seq::empty());
        let mut entries: Vec<MapEntry> = Vec::new();
        proof {
            assert(entries_view(entries@) =~= Seq::<(ScalarV, ScalarV)>::empty());
        }
        loop
            invariant
                self.records == old(self).records,
                self.pending is None,
                self.pos <= self.records@.len(),
                walk_map_spec(d.skip(self.pos as int), *h, entries_view(entries@))
                    == goal,
            decreases self.records@.len() - self.pos,
        {
            let ghost p = self.pos as int;
            let ghost suffix = d.skip(p);
            match self.next_key() {
                Option::None => {
                    proof {
                        assert(suffix.len() == 0);
                    }
                    return Result::Ok(entries);
                },
                Option::Some(k) => {
                    proof {
                        assert(suffix[0] == d[p]);
                        assert(suffix.drop_first() =~= d.skip(p + 1));
                    }
                    match self.next_value(h) {
                        Result::Err(e) => {
                            return Result::Err(e);
                        },
                        Result::Ok(Option::None) => {},
                        Result::Ok(Option::Some(s)) => {
                            upsert_entry(&mut entries, k, s);
                        },
                    }
                },
            }
        }
    }

    /// Find the first field named `k`.
    #[verifier::loop_isolation(false)]
    fn find_field(fields: &Vec<FieldShape>, k: &String) -> (r: Option<usize>)
        ensures
            match r {
                Option::Some(j) => field_index(fields@, k@) == j && j < fields@.len(),
                Option::None => field_index(fields@, k@) == -1,
            },
    {
        let n = fields.len();
        let mut i: usize = 0;
        while i < n
            invariant
                0 <= i <= n,
                forall|j: int| 0 <= j < i ==> (#[trigger] fields@[j]).name@ != k@,
            decreases n - i,
        {
            if fields[i].name == *k {
                proof {
                    lemma_field_index_found(fields@, k@, i as int);
                }
                return Option::Some(i);
            }
            i = i + 1;
        }
        proof {
            lemma_field_index_none(fields@, k@);
        }
        Option::None
    }

    /// Find the first variant named `k`.
    #[verifier::loop_isolation(false)]
    fn find_variant(variants: &Vec<VariantShape>, k: &String) -> (r: Option<usize>)
        ensures
            match r {
                Option::Some(j) => variant_index(variants@, k@) == j && j < variants@.len(),
                Option::None => variant_index(variants@, k@) == -1,
            },
    {
        let n = variants.len();
        let mut i: usize = 0;
        while i < n
            invariant
                0 <= i <= n,
                forall|j: int| 0 <= j < i ==> (#[trigger] variants@[j]).name@ != k@,
            decreases n - i,
        {
            if variants[i].name == *k {
                proof {
                    lemma_variant_index_found(variants@, k@, i as int);
                }
                return Option::Some(i);
            }
            i = i + 1;
        }
        proof {
            lemma_variant_index_none(variants@, k@);
        }
        Option::None
    }

    /// Decode the remaining records over a struct's fields.
    #[verifier::loop_isolation(false)]
    fn decode_struct(&mut self, fields: &Vec<FieldShape>) -> (r: Result<Vec<FieldValue>, Error>)
        requires
            old(self).pending is None,
            old(self).pos <= old(self).records@.len(),
        ensures
            match r {
                Result::Ok(fs) => decode_struct_spec(
                    doc_view(old(self).records@).skip(old(self).pos as int),
                    fields@,
                ) == Result::<_, ErrorV>::Ok(fields_view(fs@)),
                Result::Err(e) => decode_struct_spec(
                    doc_view(old(self).records@).skip(old(self).pos as int),
                    fields@,
                ) == Result::<Seq<(Seq<char>, Option<ScalarV>)>, ErrorV>::Err(e@),
            },
    {
        let ghost d = doc_view(old(self).records@);
        let n = fields.len();
        let mut slots: Vec<Option<Option<Scalar>>> = Vec::new();
        let mut i: usize = 0;
        while i < n
            invariant
                0 <= i <= n,
                slots@.len() == i,
                forall|j: int| 0 <= j < i ==> #[trigger] slots@[j] is None,
            decreases n - i,
        {
            slots.push(Option::None);
            i = i + 1;
        }
        proof {
            assert(slots_view(slots@) =~= Seq::new(fields@.len(), |q: int| Option::None));
        }
        let ghost init = Seq::new(fields@.len(), |q: int| Option::<Option<ScalarV>>::None);
        let ghost goal = walk_struct_spec(d.skip(old(self).pos as int), fields@, init);
        while self.pos < self.records.len()
            invariant
                self.records == old(self).records,
                self.pending is None,
                self.pos <= self.records@.len(),
                slots@.len() == fields@.len(),
                walk_struct_spec(d.skip(self.pos as int), fields@, slots_view(slots@)) == goal,
            decreases self.records@.len() - self.pos,
        {
            let ghost p = self.pos as int;
            let ghost suffix = d.skip(p);
            proof {
                assert(suffix[0] == d[p]);
                assert(suffix.drop_first() =~= d.skip(p + 1));
            }
            let k = match self.next_key() {
                Option::Some(k) => k,
                Option::None => {
                    proof {
                        assert(false);
                    }
                    vstd::pervasive::unreached()
                },
            };
            match Self::find_field(fields, &k) {
                Option::None => {
                    let _ = self.next_value(&Hint::Any);
                },
                Option::Some(j) => {
                    match self.next_value(&fields[j].hint) {
                        Result::Err(e) => {
                            return Result::Err(e);
                        },
                        Result::Ok(opt) => {
                            let ghost before = slots_view(slots@);
                            let ghost optv = opt_scalar_view(opt);
                            slots.set(j, Option::Some(opt));
                            proof {
                                assert(slots_view(slots@) =~= before.update(
                                    j as int,
                                    Option::Some(optv),
                                ));
                            }
                        },
                    }
                },
            }
        }
        proof {
            assert(d.skip(self.pos as int).len() == 0);
        }
        // All records consumed: finish the slots in field order.
        let mut out: Vec<FieldValue> = Vec::new();
        let ghost sv = slots_view(slots@);
        proof {
            assert(fields@.skip(0) =~= fields@);
            assert(sv.skip(0) =~= sv);
            assert(fields_view(out@) =~= Seq::<(Seq<char>, Option<ScalarV>)>::empty());
            match finalize_fields_spec(fields@, sv) {
                Result::Ok(t) => {
                    assert(fields_view(out@) + t =~= t);
                },
                Result::Err(_) => {},
            }
        }
        let mut j: usize = 0;
        while j < n
            invariant
                0 <= j <= n,
                n == fields@.len(),
                slots@.len() == n,
                sv == slots_view(slots@),
                goal == walk_struct_spec(
                    d.skip(old(self).pos as int),
                    fields@,
                    Seq::new(fields@.len(), |q: int| Option::<Option<ScalarV>>::None),
                ),
                match finalize_fields_spec(fields@.skip(j as int), sv.skip(j as int)) {
                    Result::Ok(t) => finalize_fields_spec(fields@, sv) == Result::<
                        _,
                        ErrorV,
                    >::Ok(fields_view(out@) + t),
                    Result::Err(e) => finalize_fields_spec(fields@, sv) == Result::<
                        Seq<(Seq<char>, Option<ScalarV>)>,
                        ErrorV,
                    >::Err(e),
                },
            decreases n - j,
        {
            let ghost fsuf = fields@.skip(j as int);
            let ghost ssuf = sv.skip(j as int);
            proof {
                assert(fsuf[0] == fields@[j as int]);
                assert(ssuf[0] == sv[j as int]);
                assert(fsuf.drop_first() =~= fields@.skip(j + 1));
                assert(ssuf.drop_first() =~= sv.skip(j + 1));
            }
            let fv: FieldValue = match &slots[j] {
                Option::Some(opt) => {
                    let value = match opt {
                        Option::Some(sc) => Option::Some(sc.duplicate()),
                        Option::None => Option::None,
                    };
                    let fv = FieldValue { name: fields[j].name.clone(), value };
                    proof {
                        assert(sv[j as int] == Option::Some(fv@.1));
                        assert(fv@.0 == fields@[j as int].name@);
                    }
                    fv
                },
                Option::None => {
                    let is_opt = match &fields[j].hint {
                        Hint::Optional(_) => true,
                        _ => false,
                    };
                    if is_opt {
                        let fv = FieldValue {
                            name: fields[j].name.clone(),
                            value: Option::None,
                        };
                        proof {
                            assert(sv[j as int] is None);
                            assert(is_optional_hint(fields@[j as int].hint));
                            assert(fv@ == (fields@[j as int].name@, Option::<ScalarV>::None));
                        }
                        fv
                    } else {
                        let msg = "missing field `".to_owned().concat(
                            fields[j].name.as_str(),
                        ).concat("`");
                        proof {
                            assert(sv[j as int] is None);
                            assert(!is_optional_hint(fields@[j as int].hint));
                            assert(finalize_fields_spec(fsuf, ssuf) == Result::<
                                Seq<(Seq<char>, Option<ScalarV>)>,
                                ErrorV,
                            >::Err(ErrorV::Custom(missing_field_msg(fields@[j as int].name@))));
                        }
                        return Result::Err(Error::Custom { msg });
                    }
                },
            };
            proof {
                assert(finalize_fields_spec(fsuf, ssuf) == match finalize_fields_spec(
                    fields@.skip(j + 1),
                    sv.skip(j + 1),
                ) {
                    Result::Ok(t2) => Result::<_, ErrorV>::Ok(seq![fv@] + t2),
                    Result::Err(e2) => Result::<Seq<(Seq<char>, Option<ScalarV>)>, ErrorV>::Err(
                        e2,
                    ),
                });
                match finalize_fields_spec(fields@.skip(j + 1), sv.skip(j + 1)) {
                    Result::Ok(t2) => {
                        assert(fields_view(out@.push(fv)) =~= fields_view(out@).push(fv@));
                        assert(fields_view(out@) + (seq![fv@] + t2) =~= fields_view(
                            out@,
                        ).push(fv@) + t2);
                    },
                    Result::Err(_) => {},
                }
            }
            out.push(fv);
            j = j + 1;
        }
        proof {
            assert(fields@.skip(n as int).len() == 0);
            assert(match finalize_fields_spec(fields@, sv) {
                Result::Ok(t) => t =~= fields_view(out@),
                Result::Err(_) => false,
            });
        }
        Result::Ok(out)
    }

    /// Decode the whole document into `shape`.
    ///
    /// The pass consumes the cursor; the result's view is exactly
    /// [`decode_spec`] of the document and shape.
    pub fn decode(self, shape: &Shape) -> (r: Result<TopValue, Error>)
        requires
            self.pos == 0,
            self.pending is None,
        ensures
            decode_result_view(r) == decode_spec(doc_view(self.records@), *shape),
        decreases shape,
    {
        let mut de = self;
        let ghost d = doc_view(de.records@);
        proof {
            assert(d.skip(0) =~= d);
        }
        match shape {
            Shape::MapOf(h) => match de.decode_map(h) {
                Result::Ok(es) => Result::Ok(TopValue::Table(es)),
                Result::Err(e) => Result::Err(e),
            },
            Shape::StructOf(fields) => match de.decode_struct(fields) {
                Result::Ok(fs) => Result::Ok(TopValue::Rec(fs)),
                Result::Err(e) => Result::Err(e),
            },
            Shape::EnumOf { tag, variants } => {
                match de.next_key() {
                    Option::None => {
                        let msg = "missing tag `".to_owned().concat(tag.as_str()).concat("`");
                        Result::Err(Error::Custom { msg })
                    },
                    Option::Some(k) => {
                        if !(k == *tag) {
                            let msg = "missing tag `".to_owned().concat(tag.as_str()).concat(
                                "`",
                            );
                            return Result::Err(Error::Custom { msg });
                        }
                        let v = match de.next_value(&Hint::Text) {
                            Result::Ok(Option::Some(Scalar::Str(vs))) => vs,
                            _ => {
                                proof {
                                    assert(false);
                                }
                                vstd::pervasive::unreached()
                            },
                        };
                        proof {
                            assert(d.drop_first() =~= d.skip(1));
                        }
                        match Self::find_variant(variants, &v) {
                            Option::None => {
                                let msg = "unknown variant `".to_owned().concat(
                                    v.as_str(),
                                ).concat("`");
                                Result::Err(Error::Custom { msg })
                            },
                            Option::Some(j) => {
                                match de.decode_struct(&variants[j].fields) {
                                    Result::Err(e) => Result::Err(e),
                                    Result::Ok(fs) => Result::Ok(
                                        TopValue::Tagged {
                                            tag: tag.clone(),
                                            variant: v,
                                            fields: fs,
                                        },
                                    ),
                                }
                            },
                        }
                    },
                }
            },
            Shape::OptionOf(inner) => {
                if de.records.len() == 0 {
                    Result::Ok(TopValue::Maybe(Option::None))
                } else {
                    match de.decode(&**inner) {
                        Result::Ok(v) => Result::Ok(
                            TopValue::Maybe(Option::Some(Box::new(v))),
                        ),
                        Result::Err(e) => Result::Err(e),
                    }
                }
            },
        }
    }
}

} // verus!
