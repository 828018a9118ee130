//! Laws relating the field encoder, the field decoder, and the two
//! structural walks: what a value's own document decodes back to.

use vstd::prelude::*;

use crate::de::field::{contains_name, field_decode_spec, is_float_text};
use crate::de::{
    decode_spec, finalize_fields_spec, lemma_field_index_found, variant_index, walk_struct_spec,
};
use crate::model::{FieldShape, Hint, ScalarV, Shape, TopValueV, VariantShape};
use crate::num::{lemma_i128_parse_render, lemma_u128_parse_render};
use crate::ser::string::render_scalar_spec;
use crate::ser::{emit_fields_spec, encode_spec};

verus! {

/// Whether decoding under `h` can yield exactly the scalar `s` back: the
/// scalar's kind is the hinted kind, and a float's text is grammatical.
pub open spec fn scalar_matches(s: ScalarV, h: Hint) -> bool {
    match h {
        Hint::Bool => s is Bool,
        Hint::I8 => s is I8,
        Hint::I16 => s is I16,
        Hint::I32 => s is I32,
        Hint::I64 => s is I64,
        Hint::I128 => s is I128,
        Hint::U8 => s is U8,
        Hint::U16 => s is U16,
        Hint::U32 => s is U32,
        Hint::U64 => s is U64,
        Hint::U128 => s is U128,
        Hint::F32 => s matches ScalarV::F32(t) && is_float_text(t),
        Hint::F64 => s matches ScalarV::F64(t) && is_float_text(t),
        Hint::Text => s is Str,
        Hint::UnitEnum(names) => s matches ScalarV::Variant(n) && contains_name(names@, n),
        Hint::Optional(_) => false,
        Hint::Any => false,
    }
}

/// Rendering a scalar and decoding the text back under the scalar's own
/// hint returns the scalar unchanged.
pub proof fn lemma_scalar_round_trip(s: ScalarV, h: Hint)
    requires
        scalar_matches(s, h),
    ensures
        field_decode_spec(render_scalar_spec(s), h) == Result::<_, crate::de::ErrorV>::Ok(
            Option::Some(s),
        ),
{
    reveal_strlit("true");
    reveal_strlit("false");
    match s {
        ScalarV::Bool(_) => {
        },
        ScalarV::I8(v) => {
            lemma_i128_parse_render(v as i128);
        },
        ScalarV::I16(v) => {
            lemma_i128_parse_render(v as i128);
        },
        ScalarV::I32(v) => {
            lemma_i128_parse_render(v as i128);
        },
        ScalarV::I64(v) => {
            lemma_i128_parse_render(v as i128);
        },
        ScalarV::I128(v) => {
            lemma_i128_parse_render(v);
        },
        ScalarV::U8(v) => {
            lemma_u128_parse_render(v as u128);
        },
        ScalarV::U16(v) => {
            lemma_u128_parse_render(v as u128);
        },
        ScalarV::U32(v) => {
            lemma_u128_parse_render(v as u128);
        },
        ScalarV::U64(v) => {
            lemma_u128_parse_render(v as u128);
        },
        ScalarV::U128(v) => {
            lemma_u128_parse_render(v);
        },
        _ => {
        },
    }
}

/// Whether a field's value can come back from its own rendering: an
/// optional field is absent or holds a matching scalar whose rendering is
/// non-empty (an empty rendering would decode to absent instead), any other
/// field holds a matching scalar.
pub open spec fn field_value_conforms(v: Option<ScalarV>, h: Hint) -> bool {
    match h {
        Hint::Optional(inner) => match v {
            Option::None => true,
            Option::Some(s) => scalar_matches(s, *inner) && render_scalar_spec(s).len() > 0,
        },
        _ => v matches Option::Some(s) && scalar_matches(s, h),
    }
}

/// A present field's value comes back from its rendering under the field's
/// full hint, the optional wrapper included.
proof fn lemma_field_round_trip(s: ScalarV, h: Hint)
    requires
        field_value_conforms(Option::Some(s), h),
    ensures
        field_decode_spec(render_scalar_spec(s), h) == Result::<_, crate::de::ErrorV>::Ok(
            Option::Some(s),
        ),
{
    match h {
        Hint::Optional(inner) => {
            lemma_scalar_round_trip(s, *inner);
        },
        _ => {
            lemma_scalar_round_trip(s, h);
        },
    }
}

/// Whether a struct value fits a struct shape for a round trip: same
/// length, names agree position by position and are distinct, and every
/// field's value conforms to its hint.
pub open spec fn rec_conforms(
    fs: Seq<(Seq<char>, Option<ScalarV>)>,
    fields: Seq<FieldShape>,
) -> bool {
    &&& fs.len() == fields.len()
    &&& forall|i: int| 0 <= i < fs.len() ==> (#[trigger] fs[i]).0 == fields[i].name@
    &&& forall|i: int|
        0 <= i < fs.len() ==> field_value_conforms((#[trigger] fs[i]).1, fields[i].hint)
    &&& forall|i: int, j: int|
        0 <= i < j < fields.len() ==> (#[trigger] fields[i]).name@ != (#[trigger] fields[j]).name@
}

/// The slots a walk over a struct's own document reaches: each present
/// field's slot filled with its value, everything else untouched.
spec fn filled(
    slots: Seq<Option<Option<ScalarV>>>,
    fs: Seq<(Seq<char>, Option<ScalarV>)>,
    t: int,
) -> Seq<Option<Option<ScalarV>>> {
    Seq::new(
        slots.len(),
        |i: int|
            if t <= i < fs.len() && fs[i].1 is Some {
                Option::Some(fs[i].1)
            } else {
                slots[i]
            },
    )
}

/// Walking the records a conforming field-list suffix emits fills exactly
/// the present fields' slots with their values.
proof fn lemma_walk_emitted(
    fs: Seq<(Seq<char>, Option<ScalarV>)>,
    fields: Seq<FieldShape>,
    slots: Seq<Option<Option<ScalarV>>>,
    t: int,
)
    requires
        rec_conforms(fs, fields),
        0 <= t <= fs.len(),
        slots.len() == fields.len(),
    ensures
        walk_struct_spec(emit_fields_spec(fs.skip(t)), fields, slots) == Result::<
            _,
            crate::de::ErrorV,
        >::Ok(filled(slots, fs, t)),
    decreases fs.len() - t,
{
    if t == fs.len() {
        assert(emit_fields_spec(fs.skip(t)) =~= Seq::<(Seq<char>, Seq<char>)>::empty());
        assert(filled(slots, fs, t) =~= slots);
    } else {
        let suffix = fs.skip(t);
        assert(suffix[0] == fs[t]);
        assert(suffix.drop_first() =~= fs.skip(t + 1));
        match fs[t].1 {
            Option::None => {
                assert(emit_fields_spec(suffix) =~= emit_fields_spec(fs.skip(t + 1)));
                lemma_walk_emitted(fs, fields, slots, t + 1);
                assert(filled(slots, fs, t) =~= filled(slots, fs, t + 1));
            },
            Option::Some(s) => {
                let doc = emit_fields_spec(suffix);
                assert(doc =~= seq![(fs[t].0, render_scalar_spec(s))] + emit_fields_spec(
                    fs.skip(t + 1),
                ));
                assert(doc[0] == (fs[t].0, render_scalar_spec(s)));
                assert(doc.drop_first() =~= emit_fields_spec(fs.skip(t + 1)));
                assert(fs[t].0 == fields[t].name@);
                assert(forall|j: int| 0 <= j < t ==> (#[trigger] fields[j]).name@
                    != fields[t].name@);
                lemma_field_index_found(fields, fields[t].name@, t);
                lemma_field_round_trip(s, fields[t].hint);
                let next = slots.update(t, Option::Some(Option::Some(s)));
                lemma_walk_emitted(fs, fields, next, t + 1);
                assert(filled(next, fs, t + 1) =~= filled(slots, fs, t));
            },
        }
    }
}

/// Finishing slots that hold exactly the present fields' values gives the
/// field list back.
proof fn lemma_finalize_conform(
    fs: Seq<(Seq<char>, Option<ScalarV>)>,
    fields: Seq<FieldShape>,
    slots: Seq<Option<Option<ScalarV>>>,
    t: int,
)
    requires
        rec_conforms(fs, fields),
        slots.len() == fields.len(),
        0 <= t <= fields.len(),
        forall|i: int|
            0 <= i < slots.len() ==> #[trigger] slots[i] == if fs[i].1 is Some {
                Option::Some(fs[i].1)
            } else {
                Option::<Option<ScalarV>>::None
            },
    ensures
        finalize_fields_spec(fields.skip(t), slots.skip(t)) == Result::<
            _,
            crate::de::ErrorV,
        >::Ok(fs.skip(t)),
    decreases fields.len() - t,
{
    if t == fields.len() {
        assert(fields.skip(t).len() == 0);
        assert(fs.skip(t) =~= Seq::<(Seq<char>, Option<ScalarV>)>::empty());
    } else {
        let fsuf = fields.skip(t);
        let ssuf = slots.skip(t);
        assert(fsuf[0] == fields[t]);
        assert(ssuf[0] == slots[t]);
        assert(fsuf.drop_first() =~= fields.skip(t + 1));
        assert(ssuf.drop_first() =~= slots.skip(t + 1));
        if fs[t].1 is Some {
            assert(slots[t] == Option::Some(fs[t].1));
        } else {
            assert(slots[t] is None);
            assert(field_value_conforms(fs[t].1, fields[t].hint));
            assert(fields[t].hint is Optional);
            assert(fs[t] == (fields[t].name@, Option::<ScalarV>::None));
        }
        lemma_finalize_conform(fs, fields, slots, t + 1);
        assert(seq![fs[t]] + fs.skip(t + 1) =~= fs.skip(t));
    }
}

/// Decoding the records a conforming struct value emits, over its own
/// shape, gives the value back.
proof fn lemma_decode_struct_emitted(fs: Seq<(Seq<char>, Option<ScalarV>)>, fields: Seq<FieldShape>)
    requires
        rec_conforms(fs, fields),
    ensures
        crate::de::decode_struct_spec(emit_fields_spec(fs), fields) == Result::<
            _,
            crate::de::ErrorV,
        >::Ok(fs),
{
    let init = Seq::new(fields.len(), |i: int| Option::<Option<ScalarV>>::None);
    assert(fs.skip(0) =~= fs);
    lemma_walk_emitted(fs, fields, init, 0);
    let slots = filled(init, fs, 0);
    assert(forall|i: int|
        0 <= i < slots.len() ==> #[trigger] slots[i] == if fs[i].1 is Some {
            Option::Some(fs[i].1)
        } else {
            Option::<Option<ScalarV>>::None
        });
    lemma_finalize_conform(fs, fields, slots, 0);
    assert(fields.skip(0) =~= fields);
    assert(slots.skip(0) =~= slots);
}

/// Round trip for structs: a struct value that conforms to a struct shape
/// decodes back, from its own encoding, to exactly itself — absent
/// optional fields included, which come back absent.
pub proof fn lemma_struct_round_trip(
    fs: Seq<(Seq<char>, Option<ScalarV>)>,
    fields: Vec<FieldShape>,
)
    requires
        rec_conforms(fs, fields@),
    ensures
        encode_spec(TopValueV::Rec(fs)) == Result::<_, crate::ser::ErrorV>::Ok(
            emit_fields_spec(fs),
        ),
        decode_spec(emit_fields_spec(fs), Shape::StructOf(fields)) == Result::<
            _,
            crate::de::ErrorV,
        >::Ok(TopValueV::Rec(fs)),
{
    lemma_decode_struct_emitted(fs, fields@);
}

/// Round trip for internally tagged enums: a conforming variant value
/// decodes back, from its own encoding — the tag record first, the fields
/// after it — to exactly itself.
pub proof fn lemma_tagged_round_trip(
    tag: String,
    name: String,
    fs: Seq<(Seq<char>, Option<ScalarV>)>,
    variants: Vec<VariantShape>,
)
    requires
        variant_index(variants@, name@) >= 0,
        rec_conforms(fs, variants@[variant_index(variants@, name@)].fields@),
    ensures
        encode_spec(TopValueV::Tagged { tag: tag@, variant: name@, fields: fs }) == Result::<
            _,
            crate::ser::ErrorV,
        >::Ok(seq![(tag@, name@)] + emit_fields_spec(fs)),
        decode_spec(
            seq![(tag@, name@)] + emit_fields_spec(fs),
            Shape::EnumOf { tag, variants },
        ) == Result::<_, crate::de::ErrorV>::Ok(
            TopValueV::Tagged { tag: tag@, variant: name@, fields: fs },
        ),
{
    let doc = seq![(tag@, name@)] + emit_fields_spec(fs);
    assert(doc[0] == (tag@, name@));
    assert(doc.drop_first() =~= emit_fields_spec(fs));
    let j = variant_index(variants@, name@);
    lemma_decode_struct_emitted(fs, variants@[j].fields@);
}

/// Idempotence of string scalars: the field encoder then the field decoder
/// under the string hint return any string unchanged — strings that read
/// as booleans or numbers, and the empty string, included.
pub proof fn lemma_string_idempotent(s: Seq<char>)
    ensures
        field_decode_spec(render_scalar_spec(ScalarV::Str(s)), Hint::Text) == Result::<
            _,
            crate::de::ErrorV,
        >::Ok(Option::Some(ScalarV::Str(s))),
{
}

/// No key ever comes out of a field list whose present fields all avoid it.
proof fn lemma_emit_keys(fs: Seq<(Seq<char>, Option<ScalarV>)>, k: Seq<char>)
    requires
        forall|i: int| 0 <= i < fs.len() && (#[trigger] fs[i]).1 is Some ==> fs[i].0 != k,
    ensures
        forall|q: int| 0 <= q < emit_fields_spec(fs).len() ==> (#[trigger] emit_fields_spec(
            fs,
        )[q]).0 != k,
    decreases fs.len(),
{
    if fs.len() > 0 {
        let t = fs.drop_first();
        assert(forall|i: int| 0 <= i < t.len() ==> #[trigger] t[i] == fs[i + 1]);
        lemma_emit_keys(t, k);
        assert(forall|q: int|
            0 <= q < emit_fields_spec(fs).len() ==> (#[trigger] emit_fields_spec(fs)[q]).0
                != k) by {
            let head: Seq<(Seq<char>, Seq<char>)> = match fs[0].1 {
                Option::None => Seq::empty(),
                Option::Some(s) => seq![(fs[0].0, render_scalar_spec(s))],
            };
            assert(emit_fields_spec(fs) == head + emit_fields_spec(t));
            assert forall|q: int|
                0 <= q < emit_fields_spec(fs).len() implies (#[trigger] emit_fields_spec(
                fs,
            )[q]).0 != k by {
                if q < head.len() {
                    assert(fs[0].1 is Some);
                    assert(emit_fields_spec(fs)[q] == head[0]);
                } else {
                    assert(emit_fields_spec(fs)[q] == emit_fields_spec(t)[q - head.len()]);
                }
            }
        }
    }
}

/// An absent optional field is never emitted: no record of the struct's
/// encoding carries its name, as long as no other field shares that name.
pub proof fn lemma_absent_optional_not_emitted(fs: Seq<(Seq<char>, Option<ScalarV>)>, i: int)
    requires
        0 <= i < fs.len(),
        fs[i].1 is None,
        forall|j: int| 0 <= j < fs.len() && j != i ==> (#[trigger] fs[j]).0 != fs[i].0,
    ensures
        forall|q: int| 0 <= q < emit_fields_spec(fs).len() ==> (#[trigger] emit_fields_spec(
            fs,
        )[q]).0 != fs[i].0,
{
    lemma_emit_keys(fs, fs[i].0);
}

} // verus!
