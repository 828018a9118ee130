//! The field encoder: one scalar to its canonical string form.

use vstd::prelude::*;

use crate::model::{Scalar, ScalarV};
use crate::num::{dec_str, dec_str_signed, render_i128_dec, render_u128_dec};

verus! {

/// The string form of a scalar: minimal decimal for integers, exactly
/// `true`/`false` for booleans, the held text verbatim for floats, strings
/// and unit variant names.
pub open spec fn render_scalar_spec(s: ScalarV) -> Seq<char> {
    match s {
        ScalarV::Bool(b) => if b {
            "true"@
        } else {
            "false"@
        },
        ScalarV::I8(v) => dec_str_signed(v as int),
        ScalarV::I16(v) => dec_str_signed(v as int),
        ScalarV::I32(v) => dec_str_signed(v as int),
        ScalarV::I64(v) => dec_str_signed(v as int),
        ScalarV::I128(v) => dec_str_signed(v as int),
        ScalarV::U8(v) => dec_str(v as nat),
        ScalarV::U16(v) => dec_str(v as nat),
        ScalarV::U32(v) => dec_str(v as nat),
        ScalarV::U64(v) => dec_str(v as nat),
        ScalarV::U128(v) => dec_str(v as nat),
        ScalarV::F32(t) => t,
        ScalarV::F64(t) => t,
        ScalarV::Str(t) => t,
        ScalarV::Variant(t) => t,
    }
}

/// Render one scalar as a raw record value.
pub fn render_scalar(s: &Scalar) -> (r: String)
    ensures
        r@ == render_scalar_spec(s@),
{
    match s {
        Scalar::Bool(b) => if *b {
            "true".to_owned()
        } else {
            "false".to_owned()
        },
        Scalar::I8(v) => render_i128_dec(*v as i128),
        Scalar::I16(v) => render_i128_dec(*v as i128),
        Scalar::I32(v) => render_i128_dec(*v as i128),
        Scalar::I64(v) => render_i128_dec(*v as i128),
        Scalar::I128(v) => render_i128_dec(*v),
        Scalar::U8(v) => render_u128_dec(*v as u128),
        Scalar::U16(v) => render_u128_dec(*v as u128),
        Scalar::U32(v) => render_u128_dec(*v as u128),
        Scalar::U64(v) => render_u128_dec(*v as u128),
        Scalar::U128(v) => render_u128_dec(*v),
        Scalar::F32(t) => t.clone(),
        Scalar::F64(t) => t.clone(),
        Scalar::Str(t) => t.clone(),
        Scalar::Variant(t) => t.clone(),
    }
}

} // verus!
