//! The partition key: a fifteen-bit fabric partition identifier, parsed from
//! decimal or `0x`-prefixed hexadecimal text and rendered as lowercase hex.
use vstd::prelude::*;
use vstd::string::StrSliceExecFns;
use vstd::string::StringExecFns;

use super::{lower_of, lowercase, UFMError};

verus! {

/// The key of the default partition, which holds every port.
pub const DEFAULT_PKEY: i32 = 0x7fff;

/// Whether `k` is a fifteen-bit value, that is `k == k & 0x7fff`.
pub open spec fn valid_key(k: int) -> bool {
    0 <= k <= 0x7fff
}

/// The lowercase hexadecimal digits, in order of value.
pub open spec fn hex_chars() -> Seq<char> {
    seq!['0', '1', '2', '3', '4', '5', '6', '7', '8', '9', 'a', 'b', 'c', 'd', 'e', 'f']
}

/// The value of the digit `c` in `base` (10 or 16; hex letters in either case).
pub open spec fn digit_value(c: char, base: nat) -> Option<nat> {
    let d = c as u32;
    if 48 <= d <= 57 && (d - 48) < base {
        Some((d - 48) as nat)
    } else if base == 16 && 97 <= d <= 102 {
        Some((d - 87) as nat)
    } else if base == 16 && 65 <= d <= 70 {
        Some((d - 55) as nat)
    } else {
        None
    }
}

pub open spec fn all_digits(s: Seq<char>, base: nat) -> bool {
    forall|i: int| 0 <= i < s.len() ==> (#[trigger] digit_value(s[i], base)) is Some
}

/// The number that the digits `s` write in `base`, most significant first.
pub open spec fn digits_value(s: Seq<char>, base: nat) -> nat
    decreases s.len(),
{
    if s.len() == 0 {
        0
    } else {
        let d = match digit_value(s.last(), base) {
            Some(v) => v,
            None => 0,
        };
        digits_value(s.drop_last(), base) * base + d
    }
}

pub open spec fn hex_prefixed(s: Seq<char>) -> bool {
    s.len() >= 2 && s[0] == '0' && (s[1] == 'x' || s[1] == 'X')
}

/// What follows a `0x` prefix, or the whole text.
pub open spec fn key_unprefixed(s: Seq<char>) -> Seq<char> {
    if hex_prefixed(s) {
        s.subrange(2, s.len() as int)
    } else {
        s
    }
}

pub open spec fn sign_char(c: char) -> bool {
    c == '+' || c == '-'
}

/// Whether the number of a key text carries a `-` sign.
pub open spec fn key_negative(s: Seq<char>) -> bool {
    let b = key_unprefixed(s);
    b.len() > 0 && b[0] == '-'
}

/// The digits of a key text: what follows the `0x` prefix and the sign, if any.
pub open spec fn key_digits(s: Seq<char>) -> Seq<char> {
    let b = key_unprefixed(s);
    if b.len() > 0 && sign_char(b[0]) {
        b.subrange(1, b.len() as int)
    } else {
        b
    }
}

pub open spec fn key_base(s: Seq<char>) -> nat {
    if hex_prefixed(s) {
        16
    } else {
        10
    }
}

/// The key that a text names: hex after `0x` (either case), decimal otherwise,
/// an optional sign, one or more digits, and a value in the fifteen-bit range
/// (so `-` only before a zero).
pub open spec fn parse_key(s: Seq<char>) -> Option<int> {
    let b = key_digits(s);
    let base = key_base(s);
    if b.len() > 0 && all_digits(b, base) && digits_value(b, base) <= 0x7fff && (!key_negative(s)
        || digits_value(b, base) == 0) {
        Some(digits_value(b, base) as int)
    } else {
        None
    }
}

/// The minimal digits of `n` in `base` (2 to 16), lowercase.
pub open spec fn radix_digits(n: nat, base: nat) -> Seq<char>
    decreases n,
    via radix_digits_decreases
{
    if n < base || base < 2 {
        seq![hex_chars()[n as int]]
    } else {
        radix_digits(n / base, base).push(hex_chars()[(n % base) as int])
    }
}

#[via_fn]
proof fn radix_digits_decreases(n: nat, base: nat) {
    if !(n < base || base < 2) {
        assert(n / base < n) by (nonlinear_arith)
            requires
                n >= base,
                base >= 2,
        ;
    }
}

/// The minimal lowercase hex digits of `n`.
pub open spec fn hex_digits(n: nat) -> Seq<char> {
    radix_digits(n, 16)
}

/// The canonical text of a key: `0x` and its minimal lowercase hex digits.
pub open spec fn key_text(k: nat) -> Seq<char> {
    seq!['0', 'x'] + hex_digits(k)
}

proof fn lemma_hex_char_value(d: nat)
    requires
        d < 16,
    ensures
        digit_value(hex_chars()[d as int], 16) == Some(d),
{
    let h = hex_chars();
    assert(h[0] == '0' && h[1] == '1' && h[2] == '2' && h[3] == '3');
    assert(h[4] == '4' && h[5] == '5' && h[6] == '6' && h[7] == '7');
    assert(h[8] == '8' && h[9] == '9' && h[10] == 'a' && h[11] == 'b');
    assert(h[12] == 'c' && h[13] == 'd' && h[14] == 'e' && h[15] == 'f');
}

proof fn lemma_hex_digits_value(n: nat)
    ensures
        hex_digits(n).len() > 0,
        all_digits(hex_digits(n), 16),
        digits_value(hex_digits(n), 16) == n,
        !hex_prefixed(hex_digits(n)) || hex_digits(n).len() >= 2,
    decreases n,
{
    let s = hex_digits(n);
    if n < 16 {
        lemma_hex_char_value(n);
        assert(s.drop_last() =~= Seq::<char>::empty());
        assert(digits_value(Seq::<char>::empty(), 16) == 0);
        assert(s.last() == hex_chars()[n as int]);
    } else {
        lemma_hex_digits_value(n / 16);
        lemma_hex_char_value(n % 16);
        let p = hex_digits(n / 16);
        assert(s.drop_last() =~= p);
        assert(s.last() == hex_chars()[(n % 16) as int]);
        assert(n == (n / 16) * 16 + n % 16) by (nonlinear_arith);
        assert forall|i: int| 0 <= i < s.len() implies (#[trigger] digit_value(s[i], 16)) is Some by {
            if i < p.len() {
                assert(s[i] == p[i]);
            }
        }
    }
}

/// Appending a digit: the value is the old value times the base, plus the digit.
proof fn lemma_value_push(s: Seq<char>, c: char, base: nat)
    ensures
        digits_value(s.push(c), base) == digits_value(s, base) * base + match digit_value(c, base) {
            Some(v) => v,
            None => 0,
        },
{
    assert(s.push(c).drop_last() =~= s);
}

/// A prefix of a run of digits writes a value no greater than the whole run.
proof fn lemma_value_prefix_le(s: Seq<char>, k: int, base: nat)
    requires
        0 <= k <= s.len(),
        base >= 1,
    ensures
        digits_value(s.subrange(0, k), base) <= digits_value(s, base),
    decreases s.len(),
{
    if k < s.len() {
        let t = s.drop_last();
        assert(t.subrange(0, k) =~= s.subrange(0, k));
        lemma_value_prefix_le(t, k, base);
        assert(digits_value(t, base) <= digits_value(t, base) * base) by (nonlinear_arith)
            requires
                base >= 1,
        ;
    } else {
        assert(s.subrange(0, k) =~= s);
    }
}

/// Parsing the canonical text of a valid key gives that key back.
pub proof fn lemma_key_round_trip(k: int)
    requires
        valid_key(k),
    ensures
        parse_key(key_text(k as nat)) == Some(k),
{
    let t = key_text(k as nat);
    lemma_hex_digits_value(k as nat);
    assert(hex_prefixed(t));
    assert(key_unprefixed(t) =~= hex_digits(k as nat));
    assert(digit_value(hex_digits(k as nat)[0], 16) is Some);
    assert(key_digits(t) =~= hex_digits(k as nat));
}

/// No text names a key outside the fifteen-bit range: parsing such a value,
/// in either base and with either sign, fails.
pub proof fn lemma_parsed_key_valid(s: Seq<char>)
    ensures
        parse_key(s) matches Some(k) ==> valid_key(k),
        key_digits(s).len() > 0 && all_digits(key_digits(s), key_base(s)) && (digits_value(
            key_digits(s),
            key_base(s),
        ) > 0x7fff || (key_negative(s) && digits_value(key_digits(s), key_base(s)) > 0)) ==> parse_key(
            s,
        ) is None,
{
}

/// A partition key: a value in `0..=0x7fff`.
#[derive(Clone, Copy, Debug)]
pub struct PartitionKey(i32);

impl PartitionKey {
    pub closed spec fn view(&self) -> int {
        self.0 as int
    }

    #[verifier::type_invariant]
    spec fn inv(&self) -> bool {
        valid_key(self.0 as int)
    }

    /// Whether this is the default partition `0x7fff`.
    pub fn is_default(&self) -> (r: bool)
        ensures
            r == (self@ == 0x7fff),
            valid_key(self@),
    {
        proof {
            use_type_invariant(self);
        }
        self.0 == DEFAULT_PKEY
    }

    /// The key's value.
    pub fn value(&self) -> (r: i32)
        ensures
            r as int == self@,
    {
        self.0
    }

    /// Makes a key of `k`; fails with `InvalidPKey` unless `k == k & 0x7fff`.
    pub fn new(k: i32) -> (r: Result<PartitionKey, UFMError>)
        ensures
            r is Ok <==> valid_key(k as int),
            r matches Ok(p) ==> p@ == k as int,
            r matches Err(e) ==> e matches UFMError::InvalidPKey(m) && m@ == int_text(k as int),
    {
        let masked = k & 0x7fff;
        assert((k == (k & 0x7fff)) <==> (0 <= k && k <= 0x7fff)) by (bit_vector);
        if k != masked {
            Err(UFMError::InvalidPKey(i32_text(k)))
        } else {
            Ok(PartitionKey(k))
        }
    }

    /// Parses a key text: `0x` (either case) then hex digits, or decimal
    /// digits, either after an optional sign. Fails with `InvalidPKey`, which
    /// carries the text in lowercase, on any other text or on a value outside
    /// `0..=0x7fff`.
    pub fn parse(s: &str) -> (r: Result<PartitionKey, UFMError>)
        ensures
            r is Ok <==> parse_key(s@) is Some,
            r matches Ok(p) ==> parse_key(s@) == Some(p@),
            r matches Err(e) ==> e matches UFMError::InvalidPKey(m) && m@ == lower_of(s@),
    {
        match parse_key_value(s) {
            Some(v) => Ok(PartitionKey(v)),
            None => Err(UFMError::InvalidPKey(lowercase(s))),
        }
    }

    /// The canonical text: `0x` and the minimal lowercase hex digits.
    pub fn to_string(&self) -> (r: String)
        ensures
            r@ == key_text(self@ as nat),
    {
        proof {
            use_type_invariant(self);
            reveal_strlit("0x");
        }
        let digits = digits_text(self.0 as u32, 16);
        String::from_str("0x").concat(digits.as_str())
    }
}

/// The decimal text of `k`: a `-` before the digits of a negative value.
pub open spec fn int_text(k: int) -> Seq<char> {
    if k < 0 {
        seq!['-'] + radix_digits((-k) as nat, 10)
    } else {
        radix_digits(k as nat, 10)
    }
}

/// The decimal text of `k`.
fn i32_text(k: i32) -> (r: String)
    ensures
        r@ == int_text(k as int),
{
    if k < 0 {
        let m: u32 = (-(k as i64)) as u32;
        proof {
            reveal_strlit("-");
        }
        let r = String::from_str("-").concat(digits_text(m, 10).as_str());
        assert(r@ =~= int_text(k as int));
        r
    } else {
        digits_text(k as u32, 10)
    }
}

/// The value of a key text, as `parse_key` gives it.
#[verifier::rlimit(40)]
fn parse_key_value(s: &str) -> (r: Option<i32>)
    ensures
        r matches Some(v) ==> parse_key(s@) == Some(v as int),
        r is None ==> parse_key(s@) is None,
{
    let n = s.unicode_len();
    let hex = n >= 2 && s.get_char(0) == '0' && (s.get_char(1) == 'x' || s.get_char(1) == 'X');
    let start: usize = if hex {
        2
    } else {
        0
    };
    let base: u32 = if hex {
        16
    } else {
        10
    };
    assert(hex == hex_prefixed(s@));
    assert(key_unprefixed(s@) =~= s@.subrange(start as int, n as int));
    let signed = start < n && (s.get_char(start) == '+' || s.get_char(start) == '-');
    let negative = start < n && s.get_char(start) == '-';
    assert(negative == key_negative(s@));
    let start: usize = if signed {
        start + 1
    } else {
        start
    };
    let ghost body = key_digits(s@);
    assert(body =~= s@.subrange(start as int, n as int));
    if start == n {
        return None;
    }
    let mut acc: u32 = 0;
    let mut i: usize = start;
    while i < n
        invariant
            start <= i <= n,
            n == s@.len(),
            base == key_base(s@),
            body == s@.subrange(start as int, n as int),
            body == key_digits(s@),
            acc <= 0x7fff,
            all_digits(body.subrange(0, i - start), base as nat),
            acc == digits_value(body.subrange(0, i - start), base as nat),
        decreases n - i,
    {
        let c = s.get_char(i);
        let d = digit_of(c, base);
        let ghost pre = body.subrange(0, i - start);
        let ghost next = body.subrange(0, i - start + 1);
        assert(next =~= pre.push(c));
        match d {
            None => {
                assert(body[i - start] == c);
                assert(!all_digits(body, base as nat));
                assert(key_base(s@) == base as nat);
                assert(parse_key(s@) is None);
                return None;
            },
            Some(v) => {
                proof {
                    lemma_value_push(pre, c, base as nat);
                }
                assert(acc * base <= 0x7fff * 16) by (nonlinear_arith)
                    requires
                        acc <= 0x7fff,
                        base <= 16,
                ;
                let m = acc * base + v;
                if m > 0x7fff {
                    proof {
                        if all_digits(body, base as nat) {
                            lemma_value_prefix_le(body, i - start + 1, base as nat);
                            assert(digits_value(next, base as nat) == m);
                        }
                        assert(key_base(s@) == base as nat);
                        assert(parse_key(s@) is None);
                    }
                    return None;
                }
                acc = m;
            },
        }
        i = i + 1;
    }
    assert(body.subrange(0, n - start) =~= body);
    if negative && acc != 0 {
        return None;
    }
    Some(acc as i32)
}

/// The value of the digit `c` in `base` (10 or 16).
fn digit_of(c: char, base: u32) -> (r: Option<u32>)
    requires
        base == 10 || base == 16,
    ensures
        r matches Some(v) ==> digit_value(c, base as nat) == Some(v as nat) && v < base,
        r is None ==> digit_value(c, base as nat) is None,
{
    let d = c as u32;
    if 48 <= d && d <= 57 && (d - 48) < base {
        Some(d - 48)
    } else if base == 16 && 97 <= d && d <= 102 {
        Some(d - 87)
    } else if base == 16 && 65 <= d && d <= 70 {
        Some(d - 55)
    } else {
        None
    }
}

/// The one-character text of the hex digit `d`.
fn hex_digit_text(d: u32) -> (r: &'static str)
    requires
        d < 16,
    ensures
        r@ == seq![hex_chars()[d as int]],
{
    let all = "0123456789abcdef";
    proof {
        reveal_strlit("0123456789abcdef");
        assert(all@ =~= hex_chars());
    }
    all.substring_char(d as usize, d as usize + 1)
}

/// The minimal digits of `k` in `base`.
pub(crate) fn digits_text(k: u32, base: u32) -> (r: String)
    requires
        2 <= base <= 16,
    ensures
        r@ == radix_digits(k as nat, base as nat),
{
    let mut n = k;
    let mut acc = String::new();
    assert(radix_digits(k as nat, base as nat) =~= radix_digits(n as nat, base as nat) + acc@);
    while n >= base
        invariant
            2 <= base <= 16,
            radix_digits(k as nat, base as nat) == radix_digits(n as nat, base as nat) + acc@,
        decreases n,
    {
        let d = hex_digit_text(n % base);
        acc = String::from_str(d).concat(acc.as_str());
        assert(radix_digits(n as nat, base as nat) == radix_digits((n / base) as nat, base as nat).push(
            hex_chars()[(n % base) as int],
        ));
        assert(radix_digits(k as nat, base as nat) =~= radix_digits((n / base) as nat, base as nat)
            + acc@);
        n = n / base;
    }
    let d = hex_digit_text(n);
    acc = String::from_str(d).concat(acc.as_str());
    assert(radix_digits(k as nat, base as nat) =~= acc@);
    acc
}

} // verus!
