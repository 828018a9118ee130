//! Decimal integer grammar: parsing and rendering, with exact specifications.
//!
//! The textual grammar is the standard base-10 one: an optional `+` sign for
//! unsigned integers, an optional `+` or `-` sign for signed integers,
//! followed by one or more ASCII digits; the value must fit the target width.
//! Rendering produces the minimal decimal form: no leading zeros and no
//! forced sign.

use vstd::prelude::*;

verus! {

/// Whether `c` is an ASCII decimal digit.
pub open spec fn is_dec_digit(c: char) -> bool {
    48 <= c as int && c as int <= 57
}

/// The numeric value of a digit character.
pub open spec fn digit_val(c: char) -> int {
    c as int - 48
}

/// Whether every character of `s` is an ASCII decimal digit.
pub open spec fn all_digits(s: Seq<char>) -> bool {
    forall|i: int| 0 <= i < s.len() ==> is_dec_digit(#[trigger] s[i])
}

/// The integer value of a digit string, most significant digit first.
pub open spec fn digits_val(s: Seq<char>) -> int
    decreases s.len(),
{
    if s.len() == 0 {
        0
    } else {
        digits_val(s.drop_last()) * 10 + digit_val(s.last())
    }
}

/// The digit portion of a decimal string: everything after a leading `+`
/// or `-` sign, or the whole string when it carries no sign.
pub open spec fn digit_part(s: Seq<char>) -> Seq<char> {
    if s.len() > 0 && (s[0] == '+' || s[0] == '-') {
        s.skip(1)
    } else {
        s
    }
}

/// What parsing `s` as an unsigned 128-bit integer yields: the grammar is an
/// optional `+` sign followed by one or more digits, and the value must not
/// exceed `u128::MAX`.
pub open spec fn u128_dec_parse(s: Seq<char>) -> Option<u128> {
    if s.len() > 0 && s[0] == '-' {
        None
    } else {
        let ds = digit_part(s);
        if ds.len() > 0 && all_digits(ds) && digits_val(ds) <= u128::MAX {
            Some(digits_val(ds) as u128)
        } else {
            None
        }
    }
}

/// What parsing `s` as a signed 128-bit integer yields: an optional `+` or
/// `-` sign followed by one or more digits, with the value inside the
/// `i128` range.
pub open spec fn i128_dec_parse(s: Seq<char>) -> Option<i128> {
    let ds = digit_part(s);
    if ds.len() > 0 && all_digits(ds) {
        if s[0] == '-' {
            if -digits_val(ds) >= i128::MIN {
                Some((-digits_val(ds)) as i128)
            } else {
                None
            }
        } else {
            if digits_val(ds) <= i128::MAX {
                Some(digits_val(ds) as i128)
            } else {
                None
            }
        }
    } else {
        None
    }
}

/// The digit character for a value below ten.
pub open spec fn digit_char(d: int) -> char {
    ((48 + d) as u8) as char
}

/// The minimal decimal rendering of a non-negative integer.
pub open spec fn dec_str(v: nat) -> Seq<char>
    decreases v,
{
    if v < 10 {
        seq![digit_char(v as int)]
    } else {
        dec_str(v / 10) + seq![digit_char((v % 10) as int)]
    }
}

/// The minimal decimal rendering of a signed integer: a `-` sign for
/// negative values, none otherwise.
pub open spec fn dec_str_signed(v: int) -> Seq<char> {
    if v >= 0 {
        dec_str(v as nat)
    } else {
        seq!['-'] + dec_str((-v) as nat)
    }
}

/// A digit string's value never goes down when the string grows on the right.
proof fn lemma_digits_val_nonneg(s: Seq<char>)
    requires
        all_digits(s),
    ensures
        digits_val(s) >= 0,
    decreases s.len(),
{
    if s.len() > 0 {
        lemma_digits_val_nonneg(s.drop_last());
    }
}

/// The value of a prefix of a digit string is bounded by the whole string's value.
proof fn lemma_digits_val_prefix(s: Seq<char>, i: int)
    requires
        all_digits(s),
        0 <= i <= s.len(),
    ensures
        digits_val(s.take(i)) <= digits_val(s),
    decreases s.len() - i,
{
    if i < s.len() {
        lemma_digits_val_prefix(s, i + 1);
        assert(s.take(i + 1).drop_last() =~= s.take(i));
        assert(s.take(i + 1).last() == s[i]);
        lemma_digits_val_nonneg(s.take(i));
        assert(digits_val(s.take(i)) <= digits_val(s.take(i)) * 10 + digit_val(s[i]));
    } else {
        assert(s.take(i) =~= s);
    }
}

/// Parse a string as an unsigned 128-bit decimal integer.
pub fn parse_u128_dec(s: &str) -> (r: Option<u128>)
    ensures
        r == u128_dec_parse(s@),
{
    let n = s.unicode_len();
    if n == 0 {
        return None;
    }
    let first = s.get_char(0);
    let start: usize = if first == '+' {
        1
    } else {
        0
    };
    if first == '-' {
        return None;
    }
    if start == n {
        proof {
            assert(digit_part(s@).len() == 0);
        }
        return None;
    }
    let ghost ds = digit_part(s@);
    proof {
        if first == '+' {
            assert(ds =~= s@.skip(1));
        } else {
            assert(ds =~= s@);
        }
    }
    let mut acc: u128 = 0;
    let mut i: usize = start;
    while i < n
        invariant
            start <= i <= n,
            n == s@.len(),
            start == 1 ==> s@[0] == '+',
            start == 0 ==> !(s@[0] == '+' || s@[0] == '-'),
            ds == digit_part(s@),
            ds.len() == n - start,
            forall|j: int| 0 <= j < i - start ==> is_dec_digit(#[trigger] ds[j]),
            acc == digits_val(ds.take(i - start)),
        decreases n - i,
    {
        let c = s.get_char(i);
        let u = c as u32;
        proof {
            assert(ds[i - start] == s@[i as int]);
        }
        if u < 48 || u > 57 {
            proof {
                assert(!is_dec_digit(ds[i - start]));
                assert(!all_digits(ds));
            }
            return None;
        }
        let d: u128 = (u - 48) as u128;
        proof {
            assert(ds.take(i - start + 1).drop_last() =~= ds.take(i - start));
            assert(ds.take(i - start + 1).last() == ds[i - start]);
            assert(digit_val(ds[i - start]) == d);
        }
        let shifted = match acc.checked_mul(10) {
            Some(t) => t,
            None => {
                proof {
                    lemma_digits_prefix_overflow(ds, i - start + 1, u128::MAX as int);
                }
                return None;
            },
        };
        let next = match shifted.checked_add(d) {
            Some(t) => t,
            None => {
                proof {
                    lemma_digits_prefix_overflow(ds, i - start + 1, u128::MAX as int);
                }
                return None;
            },
        };
        acc = next;
        i = i + 1;
    }
    proof {
        assert(ds.take(n - start) =~= ds);
    }
    Some(acc)
}

/// Parse a string as a signed 128-bit decimal integer.
pub fn parse_i128_dec(s: &str) -> (r: Option<i128>)
    ensures
        r == i128_dec_parse(s@),
{
    let n = s.unicode_len();
    if n == 0 {
        return None;
    }
    let first = s.get_char(0);
    let negative = first == '-';
    let start: usize = if first == '+' || first == '-' {
        1
    } else {
        0
    };
    if start == n {
        proof {
            assert(digit_part(s@).len() == 0);
        }
        return None;
    }
    let ghost ds = digit_part(s@);
    proof {
        if start == 1 {
            assert(ds =~= s@.skip(1));
        } else {
            assert(ds =~= s@);
        }
    }
    // The magnitude bound: 2^127 for negative values, 2^127 - 1 otherwise.
    let bound: u128 = if negative {
        170141183460469231731687303715884105728
    } else {
        170141183460469231731687303715884105727
    };
    let mut acc: u128 = 0;
    let mut i: usize = start;
    while i < n
        invariant
            start <= i <= n,
            n == s@.len(),
            start == 1 ==> (s@[0] == '+' || s@[0] == '-'),
            start == 0 ==> !(s@[0] == '+' || s@[0] == '-'),
            negative == (s@[0] == '-'),
            ds == digit_part(s@),
            ds.len() == n - start,
            bound == if negative {
                0x8000_0000_0000_0000_0000_0000_0000_0000u128
            } else {
                0x7fff_ffff_ffff_ffff_ffff_ffff_ffff_ffffu128
            },
            forall|j: int| 0 <= j < i - start ==> is_dec_digit(#[trigger] ds[j]),
            acc == digits_val(ds.take(i - start)),
            acc <= bound,
        decreases n - i,
    {
        let c = s.get_char(i);
        let u = c as u32;
        proof {
            assert(ds[i - start] == s@[i as int]);
        }
        if u < 48 || u > 57 {
            proof {
                assert(!is_dec_digit(ds[i - start]));
                assert(!all_digits(ds));
            }
            return None;
        }
        let d: u128 = (u - 48) as u128;
        proof {
            assert(ds.take(i - start + 1).drop_last() =~= ds.take(i - start));
            assert(ds.take(i - start + 1).last() == ds[i - start]);
            assert(digit_val(ds[i - start]) == d);
        }
        let shifted = match acc.checked_mul(10) {
            Some(t) => t,
            None => {
                proof {
                    lemma_digits_prefix_overflow(ds, i - start + 1, bound as int);
                }
                return None;
            },
        };
        let next = match shifted.checked_add(d) {
            Some(t) => t,
            None => {
                proof {
                    lemma_digits_prefix_overflow(ds, i - start + 1, bound as int);
                }
                return None;
            },
        };
        if next > bound {
            proof {
                lemma_digits_prefix_overflow(ds, i - start + 1, bound as int);
            }
            return None;
        }
        acc = next;
        i = i + 1;
    }
    proof {
        assert(ds.take(n - start) =~= ds);
    }
    if negative {
        if acc == 170141183460469231731687303715884105728 {
            Some(i128::MIN)
        } else {
            Some(-(acc as i128))
        }
    } else {
        Some(acc as i128)
    }
}

/// Render a digit below ten as a one-character string.
fn digit_str(d: u8) -> (r: String)
    requires
        d < 10,
    ensures
        r@ =~= seq![digit_char(d as int)],
{
    let r = match d {
        0 => "0",
        1 => "1",
        2 => "2",
        3 => "3",
        4 => "4",
        5 => "5",
        6 => "6",
        7 => "7",
        8 => "8",
        _ => "9",
    };
    proof {
        reveal_strlit("0");
        reveal_strlit("1");
        reveal_strlit("2");
        reveal_strlit("3");
        reveal_strlit("4");
        reveal_strlit("5");
        reveal_strlit("6");
        reveal_strlit("7");
        reveal_strlit("8");
        reveal_strlit("9");
    }
    r.to_owned()
}

/// Render an unsigned 128-bit integer in minimal decimal form.
pub fn render_u128_dec(v: u128) -> (r: String)
    ensures
        r@ == dec_str(v as nat),
    decreases v,
{
    if v < 10 {
        digit_str(v as u8)
    } else {
        let high = render_u128_dec(v / 10);
        let low = digit_str((v % 10) as u8);
        high.concat(low.as_str())
    }
}

/// Render a signed 128-bit integer in minimal decimal form.
pub fn render_i128_dec(v: i128) -> (r: String)
    ensures
        r@ == dec_str_signed(v as int),
{
    if v >= 0 {
        render_u128_dec(v as u128)
    } else {
        let mag: u128 = if v == i128::MIN {
            170141183460469231731687303715884105728
        } else {
            (-v) as u128
        };
        proof {
            reveal_strlit("-");
        }
        let sign: String = "-".to_owned();
        sign.concat(render_u128_dec(mag).as_str())
    }
}

/// Rendering a non-negative value yields sign-free digits whose value is the
/// value rendered.
pub proof fn lemma_dec_str_digits(v: nat)
    ensures
        dec_str(v).len() >= 1,
        all_digits(dec_str(v)),
        digits_val(dec_str(v)) == v,
    decreases v,
{
    if v < 10 {
        let s = dec_str(v);
        assert(s =~= seq![digit_char(v as int)]);
        assert(s.drop_last() =~= Seq::<char>::empty());
        assert(s.last() == digit_char(v as int));
        assert(digits_val(s) == digits_val(s.drop_last()) * 10 + digit_val(s.last()));
        assert(digit_val(digit_char(v as int)) == v);
    } else {
        lemma_dec_str_digits(v / 10);
        let s = dec_str(v);
        assert(s =~= dec_str(v / 10) + seq![digit_char((v % 10) as int)]);
        assert(s.drop_last() =~= dec_str(v / 10));
        assert(s.last() == digit_char((v % 10) as int));
        assert(digits_val(s) == digits_val(dec_str(v / 10)) * 10 + digit_val(
            digit_char((v % 10) as int),
        ));
        assert(v == (v / 10) * 10 + v % 10);
    }
}

/// Parsing the rendering of an unsigned value gives the value back.
pub proof fn lemma_u128_parse_render(v: u128)
    ensures
        u128_dec_parse(dec_str(v as nat)) == Some(v),
{
    lemma_dec_str_digits(v as nat);
    let s = dec_str(v as nat);
    assert(is_dec_digit(s[0]));
    assert(digit_part(s) =~= s);
}

/// Parsing the signed rendering of a signed value gives the value back, and
/// for negative values the unsigned parse rejects the string.
pub proof fn lemma_i128_parse_render(v: i128)
    ensures
        i128_dec_parse(dec_str_signed(v as int)) == Some(v),
        v < 0 ==> u128_dec_parse(dec_str_signed(v as int)) is None,
{
    let s = dec_str_signed(v as int);
    if v >= 0 {
        lemma_dec_str_digits(v as nat);
        assert(is_dec_digit(s[0]));
        assert(digit_part(s) =~= s);
    } else {
        lemma_dec_str_digits((-(v as int)) as nat);
        assert(s[0] == '-');
        assert(digit_part(s) =~= dec_str((-(v as int)) as nat));
    }
}

/// If some prefix of a digit string already exceeds `bound`, so does the whole
/// string, provided the characters seen so far are digits and the rest are
/// digits as well.
proof fn lemma_digits_prefix_overflow(s: Seq<char>, i: int, bound: int)
    requires
        0 <= i <= s.len(),
        forall|j: int| 0 <= j < i ==> is_dec_digit(#[trigger] s[j]),
        digits_val(s.take(i)) > bound,
    ensures
        all_digits(s) ==> digits_val(s) > bound,
{
    if all_digits(s) {
        lemma_digits_val_prefix(s, i);
    }
}

} // verus!
