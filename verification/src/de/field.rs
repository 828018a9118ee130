//! The field decoder: one raw string to one scalar, either under a
//! caller-declared hint or, absent a hint, under a fixed inference cascade.

use vstd::prelude::*;

use crate::model::{Hint, Scalar, ScalarV};
use crate::num::{
    all_digits, dec_str, dec_str_signed, i128_dec_parse, is_dec_digit, lemma_i128_parse_render,
    lemma_u128_parse_render, parse_i128_dec, parse_u128_dec, u128_dec_parse,
};
use super::{value_result_view, Error, ErrorV};

verus! {

/// The number of `.` characters in `s`.
pub open spec fn dot_count(s: Seq<char>) -> int
    decreases s.len(),
{
    if s.len() == 0 {
        0
    } else {
        dot_count(s.drop_last()) + if s.last() == '.' {
            1int
        } else {
            0int
        }
    }
}

/// The number of ASCII decimal digits in `s`.
pub open spec fn digit_count(s: Seq<char>) -> int
    decreases s.len(),
{
    if s.len() == 0 {
        0
    } else {
        digit_count(s.drop_last()) + if is_dec_digit(s.last()) {
            1int
        } else {
            0int
        }
    }
}

/// Whether `c` marks an exponent.
pub open spec fn is_exp_marker(c: char) -> bool {
    c == 'e' || c == 'E'
}

/// The index of the first `e` or `E` in `s`, or `-1` when there is none.
pub open spec fn first_e(s: Seq<char>) -> int
    decreases s.len(),
{
    if s.len() == 0 {
        -1
    } else if is_exp_marker(s[0]) {
        0
    } else {
        let r = first_e(s.drop_first());
        if r == -1 {
            -1
        } else {
            r + 1
        }
    }
}

/// The code point of `c` with an ASCII upper-case letter folded to lower
/// case.
pub open spec fn lower_int(c: char) -> int {
    if 65 <= c as int && c as int <= 90 {
        c as int + 32
    } else {
        c as int
    }
}

/// Whether `a` reads as the lower-case word `lit` up to ASCII case.
pub open spec fn lower_eq(a: Seq<char>, lit: Seq<char>) -> bool {
    a.len() == lit.len() && forall|i: int|
        0 <= i < a.len() ==> lower_int(#[trigger] a[i]) == lit[i] as int
}

/// Whether `m` is a float mantissa: one or more characters, all of them
/// digits or a decimal point, with at most one point and at least one digit.
pub open spec fn float_mantissa(m: Seq<char>) -> bool {
    &&& m.len() > 0
    &&& dot_count(m) <= 1
    &&& digit_count(m) >= 1
    &&& forall|i: int| 0 <= i < m.len() ==> is_dec_digit(#[trigger] m[i]) || m[i] == '.'
}

/// Whether `t` is what may follow the exponent marker: an optional sign and
/// one or more digits.
pub open spec fn float_exp_tail(t: Seq<char>) -> bool {
    let d = if t.len() > 0 && (t[0] == '+' || t[0] == '-') {
        t.skip(1)
    } else {
        t
    };
    d.len() > 0 && all_digits(d)
}

/// Whether `b` is a float number: a mantissa, optionally followed by an
/// exponent marker and an exponent. The marker is the first `e` or `E`.
pub open spec fn float_number(b: Seq<char>) -> bool {
    if first_e(b) == -1 {
        float_mantissa(b)
    } else {
        float_mantissa(b.take(first_e(b))) && float_exp_tail(b.skip(first_e(b) + 1))
    }
}

/// Whether `s` matches the standard textual float grammar: an optional
/// sign, then `inf`, `infinity` or `nan` up to case, or a float number.
/// Parsing as a float succeeds exactly on this grammar: a value too large
/// for the width parses to an infinity rather than failing, so width plays
/// no part in acceptance.
pub open spec fn is_float_text(s: Seq<char>) -> bool {
    let b = if s.len() > 0 && (s[0] == '+' || s[0] == '-') {
        s.skip(1)
    } else {
        s
    };
    ||| lower_eq(b, "inf"@)
    ||| lower_eq(b, "infinity"@)
    ||| lower_eq(b, "nan"@)
    ||| float_number(b)
}

/// `first_e` finds the first exponent marker and nothing earlier.
proof fn lemma_first_e_char(s: Seq<char>)
    ensures
        first_e(s) >= -1,
        first_e(s) == -1 ==> forall|i: int| 0 <= i < s.len() ==> !is_exp_marker(#[trigger] s[i]),
        first_e(s) >= 0 ==> {
            &&& first_e(s) < s.len()
            &&& is_exp_marker(s[first_e(s)])
            &&& forall|i: int| 0 <= i < first_e(s) ==> !is_exp_marker(#[trigger] s[i])
        },
    decreases s.len(),
{
    if s.len() == 0 {
    } else if is_exp_marker(s[0]) {
    } else {
        let t = s.drop_first();
        lemma_first_e_char(t);
        assert(first_e(s) == if first_e(t) == -1 {
            -1int
        } else {
            first_e(t) + 1
        }) by {
            reveal_with_fuel(first_e, 2);
        }
        assert(forall|i: int| 1 <= i < s.len() ==> #[trigger] s[i] == t[i - 1]);
        if first_e(s) == -1 {
            assert forall|i: int| 0 <= i < s.len() implies !is_exp_marker(#[trigger] s[i]) by {
                if i > 0 {
                    assert(!is_exp_marker(t[i - 1]));
                }
            }
        } else {
            assert(first_e(s) == first_e(t) + 1);
            assert(s[first_e(s)] == t[first_e(t)]);
            assert forall|i: int| 0 <= i < first_e(s) implies !is_exp_marker(
                #[trigger] s[i],
            ) by {
                if i > 0 {
                    assert(!is_exp_marker(t[i - 1]));
                }
            }
        }
    }
}

/// If `s[p]` is an exponent marker and nothing earlier is, the first marker
/// is at `p`.
proof fn lemma_first_e_at(s: Seq<char>, p: int)
    requires
        0 <= p < s.len(),
        is_exp_marker(s[p]),
        forall|i: int| 0 <= i < p ==> !is_exp_marker(#[trigger] s[i]),
    ensures
        first_e(s) == p,
    decreases s.len(),
{
    lemma_first_e_char(s);
    if p > 0 {
        assert(!is_exp_marker(s[0]));
        let t = s.drop_first();
        assert(t[p - 1] == s[p]);
        assert forall|i: int| 0 <= i < p - 1 implies !is_exp_marker(#[trigger] t[i]) by {
            assert(t[i] == s[i + 1]);
        }
        lemma_first_e_at(t, p - 1);
    }
}

/// Compare the tail of `s` from `start` with a lower-case word, folding
/// ASCII case.
fn lower_matches(s: &str, start: usize, lit: &str) -> (r: bool)
    requires
        start <= s@.len(),
    ensures
        r == lower_eq(s@.skip(start as int), lit@),
{
    let n = s.unicode_len();
    let m = lit.unicode_len();
    if n - start != m {
        return false;
    }
    let mut j: usize = 0;
    while j < m
        invariant
            n == s@.len(),
            m == lit@.len(),
            start + m == n,
            0 <= j <= m,
            forall|k: int| 0 <= k < j ==> lower_int(#[trigger] s@[start + k]) == lit@[k] as int,
        decreases m - j,
    {
        let cu = s.get_char(start + j) as u32;
        let lu = lit.get_char(j) as u32;
        let low = if 65 <= cu && cu <= 90 {
            cu + 32
        } else {
            cu
        };
        if low != lu {
            proof {
                assert(s@.skip(start as int)[j as int] == s@[start + j]);
            }
            return false;
        }
        j = j + 1;
    }
    proof {
        assert(forall|k: int| 0 <= k < m ==> s@.skip(start as int)[k] == s@[start + k]);
    }
    true
}

/// Whether `s` matches the standard textual float grammar.
#[verifier::loop_isolation(false)]
#[verifier::rlimit(60)]
pub fn is_float_str(s: &str) -> (r: bool)
    ensures
        r == is_float_text(s@),
{
    proof {
        reveal_strlit("inf");
        reveal_strlit("infinity");
        reveal_strlit("nan");
    }
    let n = s.unicode_len();
    let start: usize = if n > 0 && {
        let c = s.get_char(0);
        c == '+' || c == '-'
    } {
        1
    } else {
        0
    };
    let ghost b = if s@.len() > 0 && (s@[0] == '+' || s@[0] == '-') {
        s@.skip(1)
    } else {
        s@
    };
    proof {
        if start == 1 {
            assert(b =~= s@.skip(1));
        }
        assert(b.len() == n - start);
        assert(forall|k: int| 0 <= k < b.len() ==> #[trigger] b[k] == s@[start + k]);
    }
    if start == n {
        return false;
    }
    if lower_matches(s, start, "inf") {
        proof {
            assert(s@.skip(start as int) =~= b);
        }
        return true;
    }
    if lower_matches(s, start, "infinity") {
        proof {
            assert(s@.skip(start as int) =~= b);
        }
        return true;
    }
    if lower_matches(s, start, "nan") {
        proof {
            assert(s@.skip(start as int) =~= b);
        }
        return true;
    }
    proof {
        assert(s@.skip(start as int) =~= b);
    }
    // Scan the mantissa up to the first exponent marker.
    let mut dots: usize = 0;
    let mut digits: usize = 0;
    let mut j: usize = start;
    while j < n
        invariant
            start <= j <= n,
            dots == dot_count(b.take(j - start)),
            digits == digit_count(b.take(j - start)),
            dots + digits <= j - start,
            forall|k: int| 0 <= k < j - start ==> (is_dec_digit(#[trigger] b[k]) || b[k] == '.')
                && !is_exp_marker(b[k]),
        decreases n - j,
    {
        let c = s.get_char(j);
        let cu = c as u32;
        proof {
            assert(b[j - start] == s@[j as int]);
            assert(b.take(j - start + 1).drop_last() =~= b.take(j - start));
            assert(b.take(j - start + 1).last() == b[j - start]);
        }
        if cu == 101 || cu == 69 {
            // The exponent marker: check the mantissa, then the tail.
            proof {
                assert(is_exp_marker(b[j - start]));
                lemma_first_e_at(b, j - start);
            }
            let ghost fe = j - start;
            if dots > 1 || digits == 0 {
                proof {
                    assert(!float_mantissa(b.take(fe as int)));
                }
                return false;
            }
            let k: usize = j + 1;
            let ghost t = b.skip(j - start + 1);
            proof {
                assert(t.len() == n - k);
                assert(forall|q: int| 0 <= q < t.len() ==> #[trigger] t[q] == s@[k + q]);
            }
            let exp_start: usize = if k < n && {
                let c2 = s.get_char(k);
                c2 == '+' || c2 == '-'
            } {
                k + 1
            } else {
                k
            };
            let ghost d = if t.len() > 0 && (t[0] == '+' || t[0] == '-') {
                t.skip(1)
            } else {
                t
            };
            proof {
                if exp_start == k + 1 {
                    assert(d =~= t.skip(1));
                }
                assert(d.len() == n - exp_start);
                assert(forall|q: int| 0 <= q < d.len() ==> #[trigger] d[q] == s@[exp_start + q]);
            }
            if exp_start == n {
                return false;
            }
            let mut p: usize = exp_start;
            while p < n
                invariant
                    exp_start <= p <= n,
                    forall|q: int| 0 <= q < p - exp_start ==> is_dec_digit(#[trigger] d[q]),
                decreases n - p,
            {
                let c2 = s.get_char(p);
                let cu2 = c2 as u32;
                proof {
                    assert(d[p - exp_start] == s@[p as int]);
                }
                if cu2 < 48 || cu2 > 57 {
                    proof {
                        assert(!is_dec_digit(d[p - exp_start]));
                    }
                    return false;
                }
                p = p + 1;
            }
            return true;
        }
        if 48 <= cu && cu <= 57 {
            digits = digits + 1;
        } else if cu == 46 {
            dots = dots + 1;
        } else {
            // Not a digit, point or marker: the grammar fails however the
            // rest reads, because this character lands in the mantissa.
            proof {
                lemma_first_e_char(b);
                assert(!is_exp_marker(b[j - start]));
                assert(!(is_dec_digit(b[j - start]) || b[j - start] == '.'));
                if first_e(b) >= 0 {
                    assert(first_e(b) > j - start);
                    assert(b.take(first_e(b))[j - start] == b[j - start]);
                    assert(!float_mantissa(b.take(first_e(b))));
                } else {
                    assert(!float_mantissa(b));
                }
            }
            return false;
        }
        j = j + 1;
    }
    proof {
        assert(b.take(n - start) =~= b);
        lemma_first_e_char(b);
        if first_e(b) >= 0 {
            assert(is_exp_marker(b[first_e(b)]));
            assert(false);
        }
    }
    dots <= 1 && digits >= 1
}

/// What the inference cascade yields for an unhinted raw string: the first
/// success among, in order, unsigned integer at the narrowest width, signed
/// integer at the narrowest width, boolean, 32-bit float, 64-bit float, and
/// finally the string itself unmodified.
pub open spec fn infer_spec(s: Seq<char>) -> ScalarV {
    match u128_dec_parse(s) {
        Option::Some(v) => if v <= 0xFF {
            ScalarV::U8(v as u8)
        } else if v <= 0xFFFF {
            ScalarV::U16(v as u16)
        } else if v <= 0xFFFF_FFFF {
            ScalarV::U32(v as u32)
        } else if v <= 0xFFFF_FFFF_FFFF_FFFF {
            ScalarV::U64(v as u64)
        } else {
            ScalarV::U128(v)
        },
        Option::None => match i128_dec_parse(s) {
            // The narrowest signed width whose range holds the value. Zero
            // reaches this branch only for strings like `-0`, whose sign the
            // unsigned grammar rejects; it takes the 8-bit width.
            Option::Some(v) => if -0x80 <= v && v <= 0x7F {
                ScalarV::I8(v as i8)
            } else if -0x8000 <= v && v <= -0x81 {
                ScalarV::I16(v as i16)
            } else if -0x8000_0000 <= v && v <= -0x8001 {
                ScalarV::I32(v as i32)
            } else if -0x8000_0000_0000_0000 <= v && v <= -0x8000_0001 {
                ScalarV::I64(v as i64)
            } else {
                ScalarV::I128(v)
            },
            Option::None => if s == "true"@ {
                ScalarV::Bool(true)
            } else if s == "false"@ {
                ScalarV::Bool(false)
            } else if is_float_text(s) {
                // The 32-bit attempt accepts every grammatical float, so the
                // 64-bit attempt that would follow it can never fire.
                ScalarV::F32(s)
            } else {
                ScalarV::Str(s)
            },
        },
    }
}

/// Compare two string slices by contents.
fn str_eq(a: &str, b: &str) -> (r: bool)
    ensures
        r == (a@ == b@),
{
    a.to_owned() == b.to_owned()
}

/// Apply the inference cascade to one unhinted raw string.
pub fn infer(s: &str) -> (r: Scalar)
    ensures
        r@ == infer_spec(s@),
{
    if let Option::Some(v) = parse_u128_dec(s) {
        if v <= 0xFF {
            Scalar::U8(v as u8)
        } else if v <= 0xFFFF {
            Scalar::U16(v as u16)
        } else if v <= 0xFFFF_FFFF {
            Scalar::U32(v as u32)
        } else if v <= 0xFFFF_FFFF_FFFF_FFFF {
            Scalar::U64(v as u64)
        } else {
            Scalar::U128(v)
        }
    } else if let Option::Some(v) = parse_i128_dec(s) {
        if -0x80 <= v && v <= 0x7F {
            Scalar::I8(v as i8)
        } else if -0x8000 <= v && v <= -0x81 {
            Scalar::I16(v as i16)
        } else if -0x8000_0000 <= v && v <= -0x8001 {
            Scalar::I32(v as i32)
        } else if -0x8000_0000_0000_0000 <= v && v <= -0x8000_0001 {
            Scalar::I64(v as i64)
        } else {
            Scalar::I128(v)
        }
    } else if str_eq(s, "true") {
        Scalar::Bool(true)
    } else if str_eq(s, "false") {
        Scalar::Bool(false)
    } else if is_float_str(s) {
        Scalar::F32(s.to_owned())
    } else {
        Scalar::Str(s.to_owned())
    }
}

/// The error message for a string that names no declared variant.
pub open spec fn unknown_variant_msg(s: Seq<char>) -> Seq<char> {
    "unknown variant `"@ + s + "`"@
}

/// Whether one of the declared names reads as `s`.
pub open spec fn contains_name(names: Seq<String>, s: Seq<char>) -> bool {
    exists|i: int| 0 <= i < names.len() && #[trigger] names[i]@ == s
}

/// What the hinted path of the field decoder yields: a parse of `s` under
/// `hint`'s textual grammar, `Ok(None)` only for an empty string under an
/// optional hint. Each error names the offending string; a string that
/// matches no declared unit variant is reported as a custom error.
pub open spec fn field_decode_spec(s: Seq<char>, hint: Hint) -> Result<Option<ScalarV>, ErrorV>
    decreases hint,
{
    match hint {
        Hint::Bool => if s == "true"@ {
            Result::Ok(Option::Some(ScalarV::Bool(true)))
        } else if s == "false"@ {
            Result::Ok(Option::Some(ScalarV::Bool(false)))
        } else {
            Result::Err(ErrorV::ParseBool(s))
        },
        Hint::U8 => match u128_dec_parse(s) {
            Option::Some(v) => if v <= u8::MAX {
                Result::Ok(Option::Some(ScalarV::U8(v as u8)))
            } else {
                Result::Err(ErrorV::ParseInt(s))
            },
            Option::None => Result::Err(ErrorV::ParseInt(s)),
        },
        Hint::U16 => match u128_dec_parse(s) {
            Option::Some(v) => if v <= u16::MAX {
                Result::Ok(Option::Some(ScalarV::U16(v as u16)))
            } else {
                Result::Err(ErrorV::ParseInt(s))
            },
            Option::None => Result::Err(ErrorV::ParseInt(s)),
        },
        Hint::U32 => match u128_dec_parse(s) {
            Option::Some(v) => if v <= u32::MAX {
                Result::Ok(Option::Some(ScalarV::U32(v as u32)))
            } else {
                Result::Err(ErrorV::ParseInt(s))
            },
            Option::None => Result::Err(ErrorV::ParseInt(s)),
        },
        Hint::U64 => match u128_dec_parse(s) {
            Option::Some(v) => if v <= u64::MAX {
                Result::Ok(Option::Some(ScalarV::U64(v as u64)))
            } else {
                Result::Err(ErrorV::ParseInt(s))
            },
            Option::None => Result::Err(ErrorV::ParseInt(s)),
        },
        Hint::U128 => match u128_dec_parse(s) {
            Option::Some(v) => Result::Ok(Option::Some(ScalarV::U128(v))),
            Option::None => Result::Err(ErrorV::ParseInt(s)),
        },
        Hint::I8 => match i128_dec_parse(s) {
            Option::Some(v) => if i8::MIN <= v && v <= i8::MAX {
                Result::Ok(Option::Some(ScalarV::I8(v as i8)))
            } else {
                Result::Err(ErrorV::ParseInt(s))
            },
            Option::None => Result::Err(ErrorV::ParseInt(s)),
        },
        Hint::I16 => match i128_dec_parse(s) {
            Option::Some(v) => if i16::MIN <= v && v <= i16::MAX {
                Result::Ok(Option::Some(ScalarV::I16(v as i16)))
            } else {
                Result::Err(ErrorV::ParseInt(s))
            },
            Option::None => Result::Err(ErrorV::ParseInt(s)),
        },
        Hint::I32 => match i128_dec_parse(s) {
            Option::Some(v) => if i32::MIN <= v && v <= i32::MAX {
                Result::Ok(Option::Some(ScalarV::I32(v as i32)))
            } else {
                Result::Err(ErrorV::ParseInt(s))
            },
            Option::None => Result::Err(ErrorV::ParseInt(s)),
        },
        Hint::I64 => match i128_dec_parse(s) {
            Option::Some(v) => if i64::MIN <= v && v <= i64::MAX {
                Result::Ok(Option::Some(ScalarV::I64(v as i64)))
            } else {
                Result::Err(ErrorV::ParseInt(s))
            },
            Option::None => Result::Err(ErrorV::ParseInt(s)),
        },
        Hint::I128 => match i128_dec_parse(s) {
            Option::Some(v) => Result::Ok(Option::Some(ScalarV::I128(v))),
            Option::None => Result::Err(ErrorV::ParseInt(s)),
        },
        Hint::F32 => if is_float_text(s) {
            Result::Ok(Option::Some(ScalarV::F32(s)))
        } else {
            Result::Err(ErrorV::ParseFloat(s))
        },
        Hint::F64 => if is_float_text(s) {
            Result::Ok(Option::Some(ScalarV::F64(s)))
        } else {
            Result::Err(ErrorV::ParseFloat(s))
        },
        Hint::Text => Result::Ok(Option::Some(ScalarV::Str(s))),
        Hint::UnitEnum(names) => if contains_name(names@, s) {
            Result::Ok(Option::Some(ScalarV::Variant(s)))
        } else {
            Result::Err(ErrorV::Custom(unknown_variant_msg(s)))
        },
        Hint::Optional(inner) => if s.len() == 0 {
            Result::Ok(Option::None)
        } else {
            field_decode_spec(s, *inner)
        },
        Hint::Any => Result::Ok(Option::Some(infer_spec(s))),
    }
}

/// Decode one raw string under a hint; without one, apply the cascade.
#[verifier::loop_isolation(false)]
pub fn decode_field(s: &str, hint: &Hint) -> (r: Result<Option<Scalar>, Error>)
    ensures
        value_result_view(r) == field_decode_spec(s@, *hint),
    decreases hint,
{
    match hint {
        Hint::Bool => {
            if str_eq(s, "true") {
                Result::Ok(Option::Some(Scalar::Bool(true)))
            } else if str_eq(s, "false") {
                Result::Ok(Option::Some(Scalar::Bool(false)))
            } else {
                Result::Err(Error::ParseBoolError { text: s.to_owned() })
            }
        },
        Hint::U8 => match parse_u128_dec(s) {
            Option::Some(v) if v <= 0xFF => Result::Ok(Option::Some(Scalar::U8(v as u8))),
            _ => Result::Err(Error::ParseIntError { text: s.to_owned() }),
        },
        Hint::U16 => match parse_u128_dec(s) {
            Option::Some(v) if v <= 0xFFFF => Result::Ok(Option::Some(Scalar::U16(v as u16))),
            _ => Result::Err(Error::ParseIntError { text: s.to_owned() }),
        },
        Hint::U32 => match parse_u128_dec(s) {
            Option::Some(v) if v <= 0xFFFF_FFFF => Result::Ok(
                Option::Some(Scalar::U32(v as u32)),
            ),
            _ => Result::Err(Error::ParseIntError { text: s.to_owned() }),
        },
        Hint::U64 => match parse_u128_dec(s) {
            Option::Some(v) if v <= 0xFFFF_FFFF_FFFF_FFFF => Result::Ok(
                Option::Some(Scalar::U64(v as u64)),
            ),
            _ => Result::Err(Error::ParseIntError { text: s.to_owned() }),
        },
        Hint::U128 => match parse_u128_dec(s) {
            Option::Some(v) => Result::Ok(Option::Some(Scalar::U128(v))),
            Option::None => Result::Err(Error::ParseIntError { text: s.to_owned() }),
        },
        Hint::I8 => match parse_i128_dec(s) {
            Option::Some(v) if -0x80 <= v && v <= 0x7F => Result::Ok(
                Option::Some(Scalar::I8(v as i8)),
            ),
            _ => Result::Err(Error::ParseIntError { text: s.to_owned() }),
        },
        Hint::I16 => match parse_i128_dec(s) {
            Option::Some(v) if -0x8000 <= v && v <= 0x7FFF => Result::Ok(
                Option::Some(Scalar::I16(v as i16)),
            ),
            _ => Result::Err(Error::ParseIntError { text: s.to_owned() }),
        },
        Hint::I32 => match parse_i128_dec(s) {
            Option::Some(v) if -0x8000_0000 <= v && v <= 0x7FFF_FFFF => Result::Ok(
                Option::Some(Scalar::I32(v as i32)),
            ),
            _ => Result::Err(Error::ParseIntError { text: s.to_owned() }),
        },
        Hint::I64 => match parse_i128_dec(s) {
            Option::Some(v) if -0x8000_0000_0000_0000 <= v && v <= 0x7FFF_FFFF_FFFF_FFFF
                => Result::Ok(Option::Some(Scalar::I64(v as i64))),
            _ => Result::Err(Error::ParseIntError { text: s.to_owned() }),
        },
        Hint::I128 => match parse_i128_dec(s) {
            Option::Some(v) => Result::Ok(Option::Some(Scalar::I128(v))),
            Option::None => Result::Err(Error::ParseIntError { text: s.to_owned() }),
        },
        Hint::F32 => if is_float_str(s) {
            Result::Ok(Option::Some(Scalar::F32(s.to_owned())))
        } else {
            Result::Err(Error::ParseFloatError { text: s.to_owned() })
        },
        Hint::F64 => if is_float_str(s) {
            Result::Ok(Option::Some(Scalar::F64(s.to_owned())))
        } else {
            Result::Err(Error::ParseFloatError { text: s.to_owned() })
        },
        Hint::Text => Result::Ok(Option::Some(Scalar::Str(s.to_owned()))),
        Hint::UnitEnum(names) => {
            let n = names.len();
            let mut i: usize = 0;
            while i < n
                invariant
                    n == names@.len(),
                    forall|j: int| 0 <= j < i ==> #[trigger] names@[j]@ != s@,
                decreases n - i,
            {
                if str_eq(names[i].as_str(), s) {
                    proof {
                        assert(contains_name(names@, s@)) by {
                            assert(names@[i as int]@ == s@);
                        }
                    }
                    return Result::Ok(Option::Some(Scalar::Variant(s.to_owned())));
                }
                i = i + 1;
            }
            let msg = "unknown variant `".to_owned().concat(s).concat("`");
            Result::Err(Error::Custom { msg })
        },
        Hint::Optional(inner) => {
            if s.is_empty() {
                Result::Ok(Option::None)
            } else {
                decode_field(s, &**inner)
            }
        },
        Hint::Any => Result::Ok(Option::Some(infer(s))),
    }
}

/// Unhinted inference of an unsigned value's decimal string yields the
/// narrowest unsigned width whose range holds the value.
pub proof fn lemma_infer_unsigned_width(v: u128)
    ensures
        v <= 0xFF ==> infer_spec(dec_str(v as nat)) == ScalarV::U8(v as u8),
        0xFF < v <= 0xFFFF ==> infer_spec(dec_str(v as nat)) == ScalarV::U16(v as u16),
        0xFFFF < v <= 0xFFFF_FFFF ==> infer_spec(dec_str(v as nat)) == ScalarV::U32(v as u32),
        0xFFFF_FFFF < v <= 0xFFFF_FFFF_FFFF_FFFF ==> infer_spec(dec_str(v as nat))
            == ScalarV::U64(v as u64),
        0xFFFF_FFFF_FFFF_FFFF < v ==> infer_spec(dec_str(v as nat)) == ScalarV::U128(v),
{
    lemma_u128_parse_render(v);
}

/// Unhinted inference of a negative value's decimal string yields the
/// narrowest signed width whose range holds the value.
pub proof fn lemma_infer_signed_width(v: i128)
    requires
        v < 0,
    ensures
        -0x80 <= v ==> infer_spec(dec_str_signed(v as int)) == ScalarV::I8(v as i8),
        -0x8000 <= v < -0x80 ==> infer_spec(dec_str_signed(v as int)) == ScalarV::I16(v as i16),
        -0x8000_0000 <= v < -0x8000 ==> infer_spec(dec_str_signed(v as int)) == ScalarV::I32(
            v as i32,
        ),
        -0x8000_0000_0000_0000 <= v < -0x8000_0000 ==> infer_spec(dec_str_signed(v as int))
            == ScalarV::I64(v as i64),
        v < -0x8000_0000_0000_0000 ==> infer_spec(dec_str_signed(v as int)) == ScalarV::I128(v),
{
    lemma_i128_parse_render(v);
}

} // verus!
