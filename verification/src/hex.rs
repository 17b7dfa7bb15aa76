//! Hexadecimal digits and hexadecimal numbers.

use vstd::prelude::*;

verus! {

/// A character that may appear in a hexadecimal number, either case.
pub open spec fn is_hex_digit(c: char) -> bool {
    ('0' <= c && c <= '9') || ('a' <= c && c <= 'f') || ('A' <= c && c <= 'F')
}

/// Numeric value of a hexadecimal digit.
pub open spec fn hex_val(c: char) -> int {
    if '0' <= c && c <= '9' {
        c as int - '0' as int
    } else if 'a' <= c && c <= 'f' {
        c as int - 'a' as int + 10
    } else {
        c as int - 'A' as int + 10
    }
}

/// Value of a sequence of hexadecimal digits, most significant first.
pub open spec fn hex_value_of(s: Seq<char>) -> int
    decreases s.len(),
{
    if s.len() == 0 {
        0
    } else {
        hex_value_of(s.drop_last()) * 16 + hex_val(s.last())
    }
}

/// True when every character of `s` is a hexadecimal digit.
pub open spec fn all_hex_digits(s: Seq<char>) -> bool {
    forall|i: int| 0 <= i < s.len() ==> is_hex_digit(#[trigger] s[i])
}

/// The value of a sequence of hexadecimal digits is never negative.
pub proof fn lemma_hex_value_nonneg(s: Seq<char>)
    requires
        all_hex_digits(s),
    ensures
        hex_value_of(s) >= 0,
    decreases s.len(),
{
    if s.len() > 0 {
        assert(all_hex_digits(s.drop_last()));
        lemma_hex_value_nonneg(s.drop_last());
        assert(is_hex_digit(s.last()));
    }
}

/// Extending a sequence of hexadecimal digits never decreases its value.
pub proof fn lemma_hex_value_prefix_le(s: Seq<char>, i: int)
    requires
        all_hex_digits(s),
        0 <= i <= s.len(),
    ensures
        hex_value_of(s.take(i)) <= hex_value_of(s),
    decreases s.len() - i,
{
    if i == s.len() {
        assert(s.take(i) =~= s);
    } else {
        let t = s.take(i + 1);
        assert(t.drop_last() =~= s.take(i));
        assert(t.last() == s[i]);
        assert(all_hex_digits(s.take(i)));
        lemma_hex_value_nonneg(s.take(i));
        assert(is_hex_digit(s[i]));
        assert(hex_value_of(t) == hex_value_of(s.take(i)) * 16 + hex_val(s[i]));
        lemma_hex_value_prefix_le(s, i + 1);
    }
}

/// Numeric value of one hexadecimal digit, `None` on any other character.
pub fn hex_digit_value(c: char) -> (r: Option<u8>)
    ensures
        r is Some <==> is_hex_digit(c),
        r is Some ==> r->Some_0 == hex_val(c),
{
    let u = c as u32;
    if 48 <= u && u <= 57 {
        Some((u - 48) as u8)
    } else if 97 <= u && u <= 102 {
        Some((u - 97 + 10) as u8)
    } else if 65 <= u && u <= 70 {
        Some((u - 65 + 10) as u8)
    } else {
        None
    }
}

/// Parses a string of hexadecimal digits, most significant first, into its
/// numeric value. Fails on an empty string, on any non-hexadecimal
/// character, and on a value too large for 64 bits.
pub fn parse_hex(hex: &str) -> (r: Option<u64>)
    ensures
        r is Some <==> (hex@.len() >= 1 && all_hex_digits(hex@) && hex_value_of(hex@)
            <= u64::MAX),
        r is Some ==> r->Some_0 == hex_value_of(hex@),
{
    let n = hex.unicode_len();
    if n == 0 {
        return None;
    }
    let mut acc: u64 = 0;
    let mut i: usize = 0;
    while i < n
        invariant
            0 < n == hex@.len(),
            i <= n,
            all_hex_digits(hex@.take(i as int)),
            acc == hex_value_of(hex@.take(i as int)),
        decreases n - i,
    {
        let c = hex.get_char(i);
        match hex_digit_value(c) {
            None => {
                assert(!is_hex_digit(hex@[i as int]));
                return None;
            },
            Some(d) => {
                proof {
                    let t = hex@.take(i + 1);
                    assert(t.drop_last() =~= hex@.take(i as int));
                    assert(t.last() == hex@[i as int]);
                    assert(all_hex_digits(t));
                    assert(hex_value_of(t) == acc * 16 + hex_val(hex@[i as int]));
                }
                if acc >= 0x1000_0000_0000_0000 {
                    proof {
                        if all_hex_digits(hex@) {
                            lemma_hex_value_prefix_le(hex@, i + 1);
                            assert(hex_value_of(hex@) > u64::MAX);
                        }
                    }
                    return None;
                }
                acc = acc * 16 + (d as u64);
                i += 1;
            },
        }
    }
    proof {
        assert(hex@.take(n as int) =~= hex@);
    }
    Some(acc)
}

} // verus!
