//! Plain-value models of the chain-level identifiers the race works on: the
//! 256-bit transaction identifier and the 160-bit destination address, with a
//! verified parser for the usual `0x`-prefixed hexadecimal address literal.

use vstd::prelude::*;
use vstd::string::StrSliceExecFns;

verus! {

/// A transaction identifier: a fixed 256-bit hash, globally unique per
/// transaction, held as four 64-bit words from most to least significant.
#[derive(Clone, Copy, PartialEq, Eq, Structural, Hash, Debug)]
pub struct TxId {
    pub w0: u64,
    pub w1: u64,
    pub w2: u64,
    pub w3: u64,
}

/// A destination address: a fixed 160-bit value, held as two 64-bit words and
/// one 32-bit word from most to least significant.
#[derive(Clone, Copy, PartialEq, Eq, Structural, Hash, Debug)]
pub struct Address {
    pub w0: u64,
    pub w1: u64,
    pub w2: u32,
}

/// Whether `c` is a hexadecimal digit in either case.
pub open spec fn is_hex_digit(c: char) -> bool {
    ('0' <= c && c <= '9') || ('a' <= c && c <= 'f') || ('A' <= c && c <= 'F')
}

/// The numeric value of the hexadecimal digit `c`.
pub open spec fn hex_digit_value(c: char) -> int {
    if '0' <= c && c <= '9' {
        c as int - '0' as int
    } else if 'a' <= c && c <= 'f' {
        c as int - 'a' as int + 10
    } else {
        c as int - 'A' as int + 10
    }
}

/// The big-endian value of a sequence of hexadecimal digits.
pub open spec fn hex_value(s: Seq<char>) -> int
    decreases s.len(),
{
    if s.len() == 0 {
        0
    } else {
        hex_value(s.drop_last()) * 16 + hex_digit_value(s.last())
    }
}

/// Whether every character of `s` is a hexadecimal digit.
pub open spec fn all_hex_digits(s: Seq<char>) -> bool {
    forall|i: int| 0 <= i < s.len() ==> is_hex_digit(#[trigger] s[i])
}

/// `16^n`, used to bound partial hexadecimal values.
pub open spec fn pow16(n: nat) -> int
    decreases n,
{
    if n == 0 {
        1
    } else {
        16 * pow16((n - 1) as nat)
    }
}

/// A sequence of hexadecimal digits has a value below `16` to its length.
proof fn lemma_hex_value_bound(s: Seq<char>)
    requires
        all_hex_digits(s),
    ensures
        0 <= hex_value(s) < pow16(s.len() as nat),
    decreases s.len(),
{
    if s.len() > 0 {
        assert(forall|i: int| 0 <= i < s.len() - 1 ==> s.drop_last()[i] == #[trigger] s[i]);
        lemma_hex_value_bound(s.drop_last());
        assert(is_hex_digit(s.last()));
    }
}

/// `16^n` is positive.
proof fn lemma_pow16_positive(n: nat)
    ensures
        pow16(n) >= 1,
    decreases n,
{
    if n > 0 {
        lemma_pow16_positive((n - 1) as nat);
    }
}

/// `16^a <= 16^b` for `a <= b`.
proof fn lemma_pow16_monotonic(a: nat, b: nat)
    requires
        a <= b,
    ensures
        pow16(a) <= pow16(b),
    decreases b,
{
    if a < b {
        lemma_pow16_monotonic(a, (b - 1) as nat);
        lemma_pow16_positive((b - 1) as nat);
        lemma_pow16_positive(a);
    }
}

/// The concrete powers of sixteen an address parse relies on.
proof fn lemma_pow16_values()
    ensures
        pow16(8) == 0x1_0000_0000,
        pow16(16) == 0x1_0000_0000_0000_0000,
{
    reveal_with_fuel(pow16, 17);
}

/// Hexadecimal digit runs concatenate by shifting the first run past the
/// second.
proof fn lemma_hex_value_concat(a: Seq<char>, b: Seq<char>)
    ensures
        hex_value(a + b) == hex_value(a) * pow16(b.len()) + hex_value(b),
    decreases b.len(),
{
    if b.len() == 0 {
        assert(a + b =~= a);
    } else {
        assert((a + b).drop_last() =~= a + b.drop_last());
        assert((a + b).last() == b.last());
        lemma_hex_value_concat(a, b.drop_last());
        assert(hex_value(a) * pow16((b.len() - 1) as nat) * 16 == hex_value(a) * pow16(
            b.len(),
        )) by (nonlinear_arith)
            requires
                pow16(b.len()) == 16 * pow16((b.len() - 1) as nat),
        ;
    }
}

/// Reads the digit value of one hexadecimal character, or `None` where the
/// character is no hexadecimal digit.
fn hex_digit(c: char) -> (r: Option<u8>)
    ensures
        r is Some <==> is_hex_digit(c),
        r matches Some(v) ==> v == hex_digit_value(c),
{
    let v = c as u32;
    if '0' <= c && c <= '9' {
        Some((v - 48) as u8)
    } else if 'a' <= c && c <= 'f' {
        Some((v - 97 + 10) as u8)
    } else if 'A' <= c && c <= 'F' {
        Some((v - 65 + 10) as u8)
    } else {
        None
    }
}

/// Parses `count` hexadecimal characters of `s` starting at `start` into one
/// big-endian word; `None` exactly where a character in that range is no
/// hexadecimal digit.
fn parse_hex_word(s: &str, start: usize, count: usize) -> (r: Option<u64>)
    requires
        start + count <= s@.len(),
        start + count <= usize::MAX,
        count <= 16,
    ensures
        r is Some <==> all_hex_digits(s@.subrange(start as int, start + count)),
        r matches Some(v) ==> v == hex_value(s@.subrange(start as int, start + count)),
{
    let ghost whole = s@.subrange(start as int, start + count);
    let mut acc: u64 = 0;
    let mut i: usize = 0;
    while i < count
        invariant
            i <= count,
            count <= 16,
            start + count <= s@.len(),
            start + count <= usize::MAX,
            whole == s@.subrange(start as int, start + count),
            all_hex_digits(s@.subrange(start as int, start + i)),
            acc == hex_value(s@.subrange(start as int, start + i)),
            acc < pow16(i as nat),
        decreases count - i,
    {
        let c = s.get_char(start + i);
        match hex_digit(c) {
            Some(v) => {
                proof {
                    let prefix = s@.subrange(start as int, start + i);
                    let next = s@.subrange(start as int, start + i + 1);
                    assert(next.drop_last() =~= prefix);
                    assert(next.last() == c);
                    assert forall|j: int| 0 <= j < next.len() implies is_hex_digit(
                        #[trigger] next[j],
                    ) by {
                        if j < i {
                            assert(next[j] == prefix[j]);
                        }
                    }
                    assert(pow16((i + 1) as nat) == 16 * pow16(i as nat));
                    lemma_pow16_monotonic((i + 1) as nat, 16);
                    lemma_pow16_values();
                }
                acc = acc * 16 + (v as u64);
                i = i + 1;
            },
            None => {
                proof {
                    assert(whole[i as int] == c);
                    assert(!is_hex_digit(whole[i as int]));
                }
                return None;
            },
        }
    }
    proof {
        assert(s@.subrange(start as int, start + i) =~= whole);
    }
    Some(acc)
}

/// Whether `s` is a well-formed address literal: `0x` followed by exactly 40
/// hexadecimal digits.
pub open spec fn valid_address_literal(s: Seq<char>) -> bool {
    &&& s.len() == 42
    &&& s[0] == '0'
    &&& s[1] == 'x'
    &&& all_hex_digits(s.subrange(2, 42))
}

/// Where the three digit groups of a 42-character address literal are all
/// hexadecimal, so is the whole 40-digit run.
proof fn lemma_hex_groups_cover(s: Seq<char>)
    requires
        s.len() == 42,
        all_hex_digits(s.subrange(2, 18)),
        all_hex_digits(s.subrange(18, 34)),
        all_hex_digits(s.subrange(34, 42)),
    ensures
        all_hex_digits(s.subrange(2, 42)),
{
    let w = s.subrange(2, 42);
    assert forall|i: int| 0 <= i < w.len() implies is_hex_digit(#[trigger] w[i]) by {
        if i < 16 {
            assert(w[i] == s.subrange(2, 18)[i]);
        } else if i < 32 {
            assert(w[i] == s.subrange(18, 34)[i - 16]);
        } else {
            assert(w[i] == s.subrange(34, 42)[i - 32]);
        }
    }
}

/// Where a subrange of `s` holds a character that is no hexadecimal digit, a
/// wider subrange of `s` does too.
proof fn lemma_subrange_not_all_hex(s: Seq<char>, lo: int, hi: int, wlo: int, whi: int)
    requires
        0 <= wlo <= lo <= hi <= whi <= s.len(),
        !all_hex_digits(s.subrange(lo, hi)),
    ensures
        !all_hex_digits(s.subrange(wlo, whi)),
{
    let narrow = s.subrange(lo, hi);
    let wide = s.subrange(wlo, whi);
    assert(exists|i: int| 0 <= i < narrow.len() && !is_hex_digit(#[trigger] narrow[i]));
    let i = choose|i: int| 0 <= i < narrow.len() && !is_hex_digit(#[trigger] narrow[i]);
    assert(narrow[i] == s[lo + i]);
    assert(wide[lo + i - wlo] == s[lo + i]);
    assert(!is_hex_digit(wide[lo + i - wlo]));
}

impl Address {
    /// The address as one 160-bit mathematical value.
    pub open spec fn value(self) -> int {
        (self.w0 * 0x1_0000_0000_0000_0000 + self.w1) * 0x1_0000_0000 + self.w2
    }

    /// Parses a `0x`-prefixed 40-digit hexadecimal literal into an address;
    /// `None` exactly where the literal is malformed.
    pub fn from_hex(s: &str) -> (r: Option<Address>)
        ensures
            r is Some <==> valid_address_literal(s@),
            r matches Some(a) ==> {
                &&& a.w0 == hex_value(s@.subrange(2, 18))
                &&& a.w1 == hex_value(s@.subrange(18, 34))
                &&& a.w2 == hex_value(s@.subrange(34, 42))
                &&& a.value() == hex_value(s@.subrange(2, 42))
            },
    {
        if s.unicode_len() != 42 {
            return None;
        }
        if s.get_char(0) != '0' || s.get_char(1) != 'x' {
            return None;
        }
        let w0 = match parse_hex_word(s, 2, 16) {
            Some(v) => v,
            None => {
                proof {
                    lemma_subrange_not_all_hex(s@, 2, 18, 2, 42);
                }
                return None;
            },
        };
        let w1 = match parse_hex_word(s, 18, 16) {
            Some(v) => v,
            None => {
                proof {
                    lemma_subrange_not_all_hex(s@, 18, 34, 2, 42);
                }
                return None;
            },
        };
        let w2 = match parse_hex_word(s, 34, 8) {
            Some(v) => v,
            None => {
                proof {
                    lemma_subrange_not_all_hex(s@, 34, 42, 2, 42);
                }
                return None;
            },
        };
        proof {
            lemma_hex_groups_cover(s@);
            lemma_hex_value_bound(s@.subrange(34, 42));
            lemma_pow16_values();
            let g0 = s@.subrange(2, 18);
            let g1 = s@.subrange(18, 34);
            let g2 = s@.subrange(34, 42);
            assert(g0 + g1 =~= s@.subrange(2, 34));
            assert((g0 + g1) + g2 =~= s@.subrange(2, 42));
            lemma_hex_value_concat(g0 + g1, g2);
            lemma_hex_value_concat(g0, g1);
        }
        Some(Address { w0, w1, w2: w2 as u32 })
    }
}

} // verus!
