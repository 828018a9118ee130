//! The shared data model: raw records, scalar values, type hints, target
//! shapes and typed top-level values, together with their mathematical views.

use vstd::prelude::*;

verus! {

/// One raw key/value pair of a document, in decoded text form.
#[derive(Clone, Debug)]
pub struct Record {
    pub key: String,
    pub value: String,
}

impl View for Record {
    type V = (Seq<char>, Seq<char>);

    open spec fn view(&self) -> (Seq<char>, Seq<char>) {
        (self.key@, self.value@)
    }
}

impl Record {
    /// Pair a key with a value.
    pub fn new(key: String, value: String) -> (r: Record)
        ensures
            r@ == (key@, value@),
    {
        Record { key, value }
    }
}

/// The view of a whole document: its records' views in order.
pub open spec fn doc_view(rs: Seq<Record>) -> Seq<(Seq<char>, Seq<char>)> {
    Seq::new(rs.len(), |i: int| rs[i]@)
}

/// A decoded or to-be-encoded primitive value.
///
/// Floats are carried as their raw decimal text, exactly as the float
/// grammar matched it (`0.50` stays `0.50`); rendering a float value in its
/// canonical shortest form is the caller's conversion concern. `Variant`
/// carries the declared name of a unit enum variant.
#[derive(Clone, Debug, PartialEq, Eq)]
pub enum Scalar {
    Bool(bool),
    I8(i8),
    I16(i16),
    I32(i32),
    I64(i64),
    I128(i128),
    U8(u8),
    U16(u16),
    U32(u32),
    U64(u64),
    U128(u128),
    F32(String),
    F64(String),
    Str(String),
    Variant(String),
}

/// The mathematical view of a [`Scalar`].
pub enum ScalarV {
    Bool(bool),
    I8(i8),
    I16(i16),
    I32(i32),
    I64(i64),
    I128(i128),
    U8(u8),
    U16(u16),
    U32(u32),
    U64(u64),
    U128(u128),
    F32(Seq<char>),
    F64(Seq<char>),
    Str(Seq<char>),
    Variant(Seq<char>),
}

impl View for Scalar {
    type V = ScalarV;

    open spec fn view(&self) -> ScalarV {
        match self {
            Scalar::Bool(b) => ScalarV::Bool(*b),
            Scalar::I8(v) => ScalarV::I8(*v),
            Scalar::I16(v) => ScalarV::I16(*v),
            Scalar::I32(v) => ScalarV::I32(*v),
            Scalar::I64(v) => ScalarV::I64(*v),
            Scalar::I128(v) => ScalarV::I128(*v),
            Scalar::U8(v) => ScalarV::U8(*v),
            Scalar::U16(v) => ScalarV::U16(*v),
            Scalar::U32(v) => ScalarV::U32(*v),
            Scalar::U64(v) => ScalarV::U64(*v),
            Scalar::U128(v) => ScalarV::U128(*v),
            Scalar::F32(t) => ScalarV::F32(t@),
            Scalar::F64(t) => ScalarV::F64(t@),
            Scalar::Str(t) => ScalarV::Str(t@),
            Scalar::Variant(t) => ScalarV::Variant(t@),
        }
    }
}

impl Scalar {
    /// A copy of this scalar with the same view.
    pub fn duplicate(&self) -> (r: Scalar)
        ensures
            r@ == self@,
    {
        match self {
            Scalar::Bool(b) => Scalar::Bool(*b),
            Scalar::I8(v) => Scalar::I8(*v),
            Scalar::I16(v) => Scalar::I16(*v),
            Scalar::I32(v) => Scalar::I32(*v),
            Scalar::I64(v) => Scalar::I64(*v),
            Scalar::I128(v) => Scalar::I128(*v),
            Scalar::U8(v) => Scalar::U8(*v),
            Scalar::U16(v) => Scalar::U16(*v),
            Scalar::U32(v) => Scalar::U32(*v),
            Scalar::U64(v) => Scalar::U64(*v),
            Scalar::U128(v) => Scalar::U128(*v),
            Scalar::F32(t) => Scalar::F32(t.clone()),
            Scalar::F64(t) => Scalar::F64(t.clone()),
            Scalar::Str(t) => Scalar::Str(t.clone()),
            Scalar::Variant(t) => Scalar::Variant(t.clone()),
        }
    }
}

/// The view of an optional scalar.
pub open spec fn opt_scalar_view(o: Option<Scalar>) -> Option<ScalarV> {
    match o {
        Option::Some(s) => Option::Some(s@),
        Option::None => Option::None,
    }
}

/// The statically known target kind for one field's raw string.
///
/// `Any` marks a field with no static hint: its value goes through the
/// inference cascade. `UnitEnum` carries the declared variant names of a
/// unit-variant enum. `Optional` wraps the hint of the inner kind; an empty
/// raw string then decodes to an absent value.
#[derive(Debug, PartialEq, Eq)]
pub enum Hint {
    Bool,
    I8,
    I16,
    I32,
    I64,
    I128,
    U8,
    U16,
    U32,
    U64,
    U128,
    F32,
    F64,
    Text,
    UnitEnum(Vec<String>),
    Optional(Box<Hint>),
    Any,
}

/// One named field of a struct shape, with its hint.
#[derive(Debug, PartialEq, Eq)]
pub struct FieldShape {
    pub name: String,
    pub hint: Hint,
}

/// One struct variant of an internally tagged enum shape.
#[derive(Debug, PartialEq, Eq)]
pub struct VariantShape {
    pub name: String,
    pub fields: Vec<FieldShape>,
}

/// The shape the decoder is asked to fill.
///
/// The format is fundamentally a flat record set, so every shape is
/// map-like: scalar targets at the top level cannot be expressed at all,
/// which documents the caller error of asking for one.
#[derive(Debug, PartialEq, Eq)]
pub enum Shape {
    /// A map from string keys to values of one hinted kind.
    MapOf(Hint),
    /// A struct with named, hinted fields.
    StructOf(Vec<FieldShape>),
    /// An internally tagged enum: one record names the variant under
    /// `tag`, the rest fill that variant's fields.
    EnumOf { tag: String, variants: Vec<VariantShape> },
    /// An optional wrapper: an empty document decodes to the absent value.
    OptionOf(Box<Shape>),
}

/// One key/value entry of a typed map value.
#[derive(Clone, Debug, PartialEq, Eq)]
pub struct MapEntry {
    pub key: Scalar,
    pub value: Scalar,
}

impl View for MapEntry {
    type V = (ScalarV, ScalarV);

    open spec fn view(&self) -> (ScalarV, ScalarV) {
        (self.key@, self.value@)
    }
}

/// One named field of a typed struct value; `None` is an absent optional.
#[derive(Clone, Debug, PartialEq, Eq)]
pub struct FieldValue {
    pub name: String,
    pub value: Option<Scalar>,
}

impl View for FieldValue {
    type V = (Seq<char>, Option<ScalarV>);

    open spec fn view(&self) -> (Seq<char>, Option<ScalarV>) {
        (
            self.name@,
            match &self.value {
                Option::Some(s) => Option::Some(s@),
                Option::None => Option::None,
            },
        )
    }
}

/// A typed top-level value: what one whole document encodes or decodes.
#[derive(Debug, PartialEq, Eq)]
pub enum TopValue {
    /// A map of scalar keys to scalar values, in entry order.
    Table(Vec<MapEntry>),
    /// A struct: named fields in declaration order.
    Rec(Vec<FieldValue>),
    /// An internally tagged enum variant.
    Tagged { tag: String, variant: String, fields: Vec<FieldValue> },
    /// An optional wrapper around another top-level value.
    Maybe(Option<Box<TopValue>>),
    /// A bare scalar: the format has no syntax for it, and the encoder
    /// rejects it.
    Bare(Scalar),
}

/// The mathematical view of a [`TopValue`].
pub enum TopValueV {
    Table(Seq<(ScalarV, ScalarV)>),
    Rec(Seq<(Seq<char>, Option<ScalarV>)>),
    Tagged { tag: Seq<char>, variant: Seq<char>, fields: Seq<(Seq<char>, Option<ScalarV>)> },
    Maybe(Option<Box<TopValueV>>),
    Bare(ScalarV),
}

/// The view of a field list.
pub open spec fn fields_view(fs: Seq<FieldValue>) -> Seq<(Seq<char>, Option<ScalarV>)> {
    Seq::new(fs.len(), |i: int| fs[i]@)
}

/// The view of a map entry list.
pub open spec fn entries_view(es: Seq<MapEntry>) -> Seq<(ScalarV, ScalarV)> {
    Seq::new(es.len(), |i: int| es[i]@)
}

/// The view of a [`TopValue`].
pub open spec fn top_view(v: TopValue) -> TopValueV
    decreases v,
{
    match v {
        TopValue::Table(es) => TopValueV::Table(entries_view(es@)),
        TopValue::Rec(fs) => TopValueV::Rec(fields_view(fs@)),
        TopValue::Tagged { tag, variant, fields } => TopValueV::Tagged {
            tag: tag@,
            variant: variant@,
            fields: fields_view(fields@),
        },
        TopValue::Maybe(inner) => TopValueV::Maybe(
            match inner {
                Option::Some(b) => Option::Some(Box::new(top_view(*b))),
                Option::None => Option::None,
            },
        ),
        TopValue::Bare(s) => TopValueV::Bare(s@),
    }
}

impl View for TopValue {
    type V = TopValueV;

    open spec fn view(&self) -> TopValueV {
        top_view(*self)
    }
}

} // verus!
