use vstd::prelude::*;
use vstd::string::StringSliceAdditionalSpecFns;
use vstd::utf8::{decode_utf8, encode_utf8, is_char_boundary, valid_utf8};

verus! {

broadcast use {vstd::utf8::encode_utf8_valid_utf8, vstd::utf8::encode_utf8_decode_utf8};

/* Decimal integers */

/// The byte is an ASCII decimal digit.
pub open spec fn is_digit(b: u8) -> bool {
    0x30 <= b <= 0x39
}

/// Every byte of `s` is an ASCII decimal digit.
pub open spec fn all_digits(s: Seq<u8>) -> bool {
    forall|i: int| 0 <= i < s.len() ==> #[trigger] is_digit(s[i])
}

/// The number that a string of decimal digits denotes.
pub open spec fn digits_value(s: Seq<u8>) -> nat
    decreases s.len(),
{
    if s.len() == 0 {
        0
    } else {
        digits_value(s.drop_last()) * 10 + (s.last() - 0x30) as nat
    }
}

/// The `i32` that `s` denotes in decimal, the way `str::parse::<i32>` reads it:
/// an optional `+` or `-` followed by at least one digit and nothing else, with a
/// value in range. `None` for every other input.
pub open spec fn parse_i32(s: Seq<u8>) -> Option<i32> {
    if s.len() == 0 {
        None
    } else {
        let signed = s[0] == 0x2b || s[0] == 0x2d;
        let digits = if signed {
            s.drop_first()
        } else {
            s
        };
        let magnitude = digits_value(digits) as int;
        let v = if s[0] == 0x2d {
            -magnitude
        } else {
            magnitude
        };
        if digits.len() == 0 || !all_digits(digits) || v < i32::MIN || v > i32::MAX {
            None
        } else {
            Some(v as i32)
        }
    }
}

proof fn lemma_digits_value_prefix(s: Seq<u8>, k: int)
    requires
        all_digits(s),
        0 <= k <= s.len(),
    ensures
        digits_value(s) >= digits_value(s.subrange(0, k)),
    decreases s.len(),
{
    if k < s.len() {
        let t = s.drop_last();
        assert(all_digits(t)) by {
            assert forall|i: int| 0 <= i < t.len() implies #[trigger] is_digit(t[i]) by {
                assert(is_digit(s[i]));
            }
        }
        lemma_digits_value_prefix(t, k);
        assert(t.subrange(0, k) =~= s.subrange(0, k));
    } else {
        assert(s.subrange(0, k) =~= s);
    }
}

/// Reads a decimal `i32` from bytes, as `str::parse::<i32>` does.
pub fn parse_i32_bytes(s: &[u8]) -> (r: Option<i32>)
    ensures
        r == parse_i32(s@),
{
    let len = s.len();
    if len == 0 {
        return None;
    }
    let first = s[0];
    let start: usize = if first == 0x2b || first == 0x2d {
        1
    } else {
        0
    };
    let ghost digits = s@.subrange(start as int, len as int);
    proof {
        if start == 1 {
            assert(digits =~= s@.drop_first());
        } else {
            assert(digits =~= s@);
        }
    }
    if start == len {
        return None;
    }
    let mut acc: u64 = 0;
    let mut i: usize = start;
    while i < len
        invariant
            len == s@.len(),
            len > 0,
            first == s@[0],
            start == (if first == 0x2b || first == 0x2d {
                1usize
            } else {
                0usize
            }),
            start <= i <= len,
            digits == s@.subrange(start as int, len as int),
            digits == (if start == 1 {
                s@.drop_first()
            } else {
                s@
            }),
            acc == digits_value(s@.subrange(start as int, i as int)),
            acc <= 2147483648,
            all_digits(s@.subrange(start as int, i as int)),
        decreases len - i,
    {
        let b = s[i];
        if b < 0x30 || b > 0x39 {
            assert(!is_digit(digits[i - start]));
            return None;
        }
        let ghost prev = s@.subrange(start as int, i as int);
        let ghost next = s@.subrange(start as int, i + 1);
        assert(next.drop_last() =~= prev);
        assert(all_digits(next)) by {
            assert forall|k: int| 0 <= k < next.len() implies #[trigger] is_digit(next[k]) by {
                if k < prev.len() {
                    assert(next[k] == prev[k]);
                }
            }
        }
        acc = acc * 10 + (b - 0x30) as u64;
        if acc > 2147483648 {
            proof {
                if all_digits(digits) {
                    lemma_digits_value_prefix(digits, i + 1 - start);
                    assert(digits.subrange(0, i + 1 - start) =~= next);
                }
            }
            return None;
        }
        i = i + 1;
    }
    assert(s@.subrange(start as int, i as int) =~= digits);
    if first == 0x2d {
        let v: i64 = 0 - (acc as i64);
        Some(v as i32)
    } else if acc > 2147483647 {
        None
    } else {
        Some(acc as i32)
    }
}

/* Fields separated by "%%" */

/// A `%%` separator starts at position `i` of `s`.
pub open spec fn is_sep_at(s: Seq<u8>, i: int) -> bool {
    0 <= i && i + 1 < s.len() && s[i] == 0x25 && s[i + 1] == 0x25
}

/// The first position at or after `i` where a `%%` separator starts.
pub open spec fn first_sep_from(s: Seq<u8>, i: int) -> Option<int>
    decreases s.len() - i,
{
    if i < 0 || i + 1 >= s.len() {
        None
    } else if is_sep_at(s, i) {
        Some(i)
    } else {
        first_sep_from(s, i + 1)
    }
}

/// The `k`-th field of `s` split at `%%` separators, found from the left as
/// `str::split("%%")` finds them; `None` where `s` has fewer fields.
pub open spec fn split_field(s: Seq<u8>, k: nat) -> Option<Seq<u8>>
    decreases k,
{
    match first_sep_from(s, 0) {
        Some(i) => if k == 0 {
            Some(s.subrange(0, i))
        } else {
            split_field(s.subrange(i + 2, s.len() as int), (k - 1) as nat)
        },
        None => if k == 0 {
            Some(s)
        } else {
            None
        },
    }
}

proof fn lemma_first_sep_facts(s: Seq<u8>, i: int)
    requires
        0 <= i,
    ensures
        first_sep_from(s, i) matches Some(j) ==> i <= j && is_sep_at(s, j) && forall|k: int|
            i <= k < j ==> !#[trigger] is_sep_at(s, k),
        first_sep_from(s, i) is None ==> forall|k: int| i <= k ==> !#[trigger] is_sep_at(s, k),
    decreases s.len() - i,
{
    if i + 1 < s.len() && !is_sep_at(s, i) {
        lemma_first_sep_facts(s, i + 1);
    }
}

/// Position of the first `%%` separator in `s` at or after `from`.
fn find_sep(s: &[u8], from: usize) -> (r: Option<usize>)
    ensures
        r matches Some(j) ==> first_sep_from(s@, from as int) == Some(j as int),
        r is None ==> first_sep_from(s@, from as int) is None,
{
    let len = s.len();
    let mut i = from;
    while i < len && i + 1 < len
        invariant
            len == s@.len(),
            from <= i,
            first_sep_from(s@, from as int) == first_sep_from(s@, i as int),
        decreases len - i,
    {
        if s[i] == 0x25 && s[i + 1] == 0x25 {
            return Some(i);
        }
        i = i + 1;
    }
    None
}

proof fn lemma_ascii_first_boundary(b: Seq<u8>)
    requires
        valid_utf8(b),
        b.len() >= 1,
        b[0] < 0x80,
    ensures
        is_char_boundary(b, 1),
{
    reveal_with_fuel(is_char_boundary, 2);
}

proof fn lemma_ascii_at_boundary(b: Seq<u8>, i: int)
    requires
        valid_utf8(b),
        0 <= i < b.len(),
        b[i] < 0x80,
    ensures
        is_char_boundary(b, i),
{
    vstd::utf8::is_char_boundary_iff_not_is_continuation_byte(b, i);
}

/// Splits `s` at a `%%` separator that starts at byte `i`: the text before it and the
/// text after it.
fn split_around_sep(s: &str, i: usize) -> (r: (&str, &str))
    requires
        is_sep_at(s.spec_bytes(), i as int),
    ensures
        r.0.spec_bytes() == s.spec_bytes().subrange(0, i as int),
        r.1.spec_bytes() == s.spec_bytes().subrange(i + 2, s.spec_bytes().len() as int),
{
    let ghost b = s.spec_bytes();
    proof {
        lemma_ascii_at_boundary(b, i as int);
    }
    let (before, rest) = s.split_at(i);
    let ghost rb = rest.spec_bytes();
    proof {
        assert(rb[0] == b[i as int]);
        lemma_ascii_first_boundary(rb);
    }
    let (_p1, rest2) = rest.split_at(1);
    let ghost r2 = rest2.spec_bytes();
    proof {
        assert(r2[0] == b[i + 1]);
        lemma_ascii_first_boundary(r2);
    }
    let (_p2, after) = rest2.split_at(1);
    assert(after.spec_bytes() =~= b.subrange(i + 2, b.len() as int));
    (before, after)
}

/// The fields that a description `tradeready%%value%%owner` holds.
pub struct ParsedDescription {
    pub trade_ready: String,
    pub value: i32,
    pub owner: String,
}

/// A description can be read: it has at least three `%%`-separated fields and
/// the second is a decimal `i32`.
pub open spec fn description_readable(d: Seq<u8>) -> bool {
    &&& split_field(d, 1) is Some
    &&& split_field(d, 2) is Some
    &&& parse_i32(split_field(d, 1)->0) is Some
}

/// Reads a description of the form `tradeready%%value%%owner[%%...]`.
pub fn parse_description(desc: &str) -> (r: Option<ParsedDescription>)
    ensures
        r is Some <==> description_readable(desc.spec_bytes()),
        r matches Some(p) ==> {
            &&& p.trade_ready@ == decode_utf8(split_field(desc.spec_bytes(), 0)->0)
            &&& p.value == parse_i32(split_field(desc.spec_bytes(), 1)->0)->0
            &&& p.owner@ == decode_utf8(split_field(desc.spec_bytes(), 2)->0)
        },
{
    let ghost d = desc.spec_bytes();
    let bytes = desc.as_bytes();
    let i0 = match find_sep(bytes, 0) {
        Some(i) => i,
        None => {
            return None;
        },
    };
    proof {
        lemma_first_sep_facts(d, 0);
    }
    let (date, rest) = split_around_sep(desc, i0);
    let ghost d1 = rest.spec_bytes();
    assert(split_field(d, 1) == split_field(d1, 0));
    assert(split_field(d, 2) == split_field(d1, 1));
    let rest_bytes = rest.as_bytes();
    let i1 = match find_sep(rest_bytes, 0) {
        Some(i) => i,
        None => {
            return None;
        },
    };
    proof {
        lemma_first_sep_facts(d1, 0);
    }
    let (value_text, rest2) = split_around_sep(rest, i1);
    let ghost d2 = rest2.spec_bytes();
    assert(split_field(d, 1) == Some(value_text.spec_bytes()));
    assert(split_field(d, 2) == split_field(d2, 0));
    let rest2_bytes = rest2.as_bytes();
    let owner_text = match find_sep(rest2_bytes, 0) {
        Some(i2) => {
            proof {
                lemma_first_sep_facts(d2, 0);
            }
            let (o, _tail) = split_around_sep(rest2, i2);
            o
        },
        None => rest2,
    };
    assert(split_field(d, 2) == Some(owner_text.spec_bytes()));
    let value = match parse_i32_bytes(value_text.as_bytes()) {
        Some(v) => v,
        None => {
            return None;
        },
    };
    Some(ParsedDescription { trade_ready: date.to_owned(), value, owner: owner_text.to_owned() })
}

} // verus!
