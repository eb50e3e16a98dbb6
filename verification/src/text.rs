//! Character-level helpers shared by the protocol modules.

use vstd::prelude::*;
use vstd::utf8::{encode_utf8, encode_utf8_decode_utf8};

verus! {

/// The characters of `s`, in order.
pub fn str_chars(s: &str) -> (r: Vec<char>)
    ensures
        r@ == s@,
{
    let mut out: Vec<char> = Vec::new();
    for c in it: s.chars()
        invariant
            out@ == it.seq().take(it.index()),
    {
        out.push(c);
    }
    out
}

/// `String::from_iter` over the characters of a slice: the string that holds
/// exactly those characters, in the same order.
#[verifier::external_body]
pub(crate) fn chars_to_string(chars: &[char]) -> (r: String)
    ensures
        r@ == chars@,
{
    String::from_iter(chars.iter())
}

/// Whether two strings hold the same characters.
pub fn str_eq(a: &str, b: &str) -> (r: bool)
    ensures
        r == (a@ == b@),
{
    let x = a.as_bytes();
    let y = b.as_bytes();
    proof {
        encode_utf8_decode_utf8(a@);
        encode_utf8_decode_utf8(b@);
    }
    if x.len() != y.len() {
        return false;
    }
    let mut i: usize = 0;
    while i < x.len()
        invariant
            i <= x.len(),
            x.len() == y.len(),
            a@ == b@ ==> x@ == y@,
            forall|j: int| 0 <= j < i ==> x@[j] == y@[j],
        decreases x.len() - i,
    {
        if x[i] != y[i] {
            return false;
        }
        i += 1;
    }
    assert(x@ =~= y@);
    true
}

/// Whether `text` begins with the characters of `prefix`.
pub fn starts_with(text: &str, prefix: &str) -> (r: bool)
    ensures
        r == prefix@.is_prefix_of(text@),
{
    let t = str_chars(text);
    let p = str_chars(prefix);
    if p.len() > t.len() {
        return false;
    }
    let mut i: usize = 0;
    while i < p.len()
        invariant
            i <= p.len() <= t.len(),
            p@ == prefix@,
            t@ == text@,
            forall|j: int| 0 <= j < i ==> p@[j] == t@[j],
        decreases p.len() - i,
    {
        if p[i] != t[i] {
            assert(t@.subrange(0, p@.len() as int)[i as int] == t@[i as int]);
            return false;
        }
        i += 1;
    }
    assert(p@ =~= t@.subrange(0, p@.len() as int));
    true
}

/// `needle` occurs in `haystack` as a contiguous run of characters.
pub open spec fn occurs_in(needle: Seq<char>, haystack: Seq<char>) -> bool {
    exists|i: int|
        0 <= i && i + needle.len() <= haystack.len() && #[trigger] haystack.subrange(
            i,
            i + needle.len(),
        ) == needle
}

/// Whether `haystack` holds `needle` as a substring.
pub fn contains_text(haystack: &str, needle: &str) -> (r: bool)
    ensures
        r == occurs_in(needle@, haystack@),
{
    let h = str_chars(haystack);
    let n = str_chars(needle);
    if n.len() > h.len() {
        return false;
    }
    let last: usize = h.len() - n.len();
    let mut i: usize = 0;
    while i <= last
        invariant
            n.len() <= h.len(),
            last == h.len() - n.len(),
            i <= last + 1,
            h@ == haystack@,
            n@ == needle@,
            forall|k: int| 0 <= k < i ==> #[trigger] h@.subrange(k, k + n@.len()) != n@,
        decreases last + 1 - i,
    {
        let mut j: usize = 0;
        while j < n.len() && h[i + j] == n[j]
            invariant
                i <= last,
                last == h.len() - n.len(),
                j <= n.len(),
                forall|k: int| 0 <= k < j ==> h@[i + k] == n@[k],
            decreases n.len() - j,
        {
            j += 1;
        }
        if j == n.len() {
            assert(h@.subrange(i as int, i + n@.len()) =~= n@);
            return true;
        }
        assert(h@.subrange(i as int, i + n@.len())[j as int] != n@[j as int]);
        i += 1;
    }
    false
}

/// The upper-case hexadecimal digit for `d`.
pub open spec fn hex_digit(d: int) -> char {
    if d < 10 {
        ((48 + d) as u8) as char
    } else {
        ((55 + d) as u8) as char
    }
}

/// `n` as eight upper-case hexadecimal digits, most significant first.
pub open spec fn hex8(n: int) -> Seq<char> {
    seq![
        hex_digit(n / 0x1000_0000 % 16),
        hex_digit(n / 0x100_0000 % 16),
        hex_digit(n / 0x10_0000 % 16),
        hex_digit(n / 0x1_0000 % 16),
        hex_digit(n / 0x1000 % 16),
        hex_digit(n / 0x100 % 16),
        hex_digit(n / 0x10 % 16),
        hex_digit(n % 16),
    ]
}

/// Whether `c` is one of `0`-`9`, `A`-`F`.
pub open spec fn is_upper_hex(c: char) -> bool {
    ('0' <= c && c <= '9') || ('A' <= c && c <= 'F')
}

/// The number that an upper-case hexadecimal digit stands for.
pub open spec fn upper_hex_value(c: char) -> int {
    if c <= '9' {
        c as int - 48
    } else {
        c as int - 55
    }
}

/// The number that a run of upper-case hexadecimal digits stands for.
pub open spec fn hex_number(s: Seq<char>) -> int
    decreases s.len(),
{
    if s.len() == 0 {
        0
    } else {
        16 * hex_number(s.drop_last()) + upper_hex_value(s.last())
    }
}

/// The digit for `d`.
pub fn hex_digit_char(d: u8) -> (r: char)
    requires
        d < 16,
    ensures
        r == hex_digit(d as int),
        is_upper_hex(r),
        upper_hex_value(r) == d,
{
    if d < 10 {
        (48 + d) as char
    } else {
        (55 + d) as char
    }
}

/// `n` as eight upper-case hexadecimal digits, padded with zeros.
pub fn format_hex8(n: u32) -> (r: String)
    ensures
        r@ == hex8(n as int),
{
    let mut digits: Vec<char> = Vec::new();
    digits.push(hex_digit_char((n / 0x1000_0000 % 16) as u8));
    digits.push(hex_digit_char((n / 0x100_0000 % 16) as u8));
    digits.push(hex_digit_char((n / 0x10_0000 % 16) as u8));
    digits.push(hex_digit_char((n / 0x1_0000 % 16) as u8));
    digits.push(hex_digit_char((n / 0x1000 % 16) as u8));
    digits.push(hex_digit_char((n / 0x100 % 16) as u8));
    digits.push(hex_digit_char((n / 0x10 % 16) as u8));
    digits.push(hex_digit_char((n % 16) as u8));
    assert(digits@ =~= hex8(n as int));
    chars_to_string(digits.as_slice())
}

/// Eight hexadecimal digits written for a number read back as that number,
/// and each of them is an upper-case hexadecimal digit.
pub proof fn lemma_hex8_reads_back(n: int)
    requires
        0 <= n < 0x1_0000_0000,
    ensures
        hex8(n).len() == 8,
        forall|i: int| 0 <= i < 8 ==> is_upper_hex(#[trigger] hex8(n)[i]),
        hex_number(hex8(n)) == n,
{
    let s = hex8(n);
    assert forall|d: int| 0 <= d < 16 implies is_upper_hex(#[trigger] hex_digit(d))
        && upper_hex_value(hex_digit(d)) == d by {
        if d < 10 {
            assert(hex_digit(d) == ((48 + d) as u8) as char);
        } else {
            assert(hex_digit(d) == ((55 + d) as u8) as char);
        }
    }
    let s7 = s.drop_last();
    let s6 = s7.drop_last();
    let s5 = s6.drop_last();
    let s4 = s5.drop_last();
    let s3 = s4.drop_last();
    let s2 = s3.drop_last();
    let s1 = s2.drop_last();
    let s0 = s1.drop_last();
    assert(s0.len() == 0);
    assert(hex_number(s0) == 0);
    assert(hex_number(s1) == n / 0x1000_0000 % 16);
    assert(hex_number(s2) == n / 0x100_0000);
    assert(hex_number(s3) == n / 0x10_0000);
    assert(hex_number(s4) == n / 0x1_0000);
    assert(hex_number(s5) == n / 0x1000);
    assert(hex_number(s6) == n / 0x100);
    assert(hex_number(s7) == n / 0x10);
    assert(hex_number(s) == n);
}

/// The UTF-8 octets of two texts put together are the octets of the first
/// followed by those of the second.
pub proof fn lemma_encode_utf8_concat(a: Seq<char>, b: Seq<char>)
    ensures
        encode_utf8(a + b) == encode_utf8(a) + encode_utf8(b),
    decreases a.len(),
{
    if a.len() == 0 {
        assert(a + b =~= b);
    } else {
        assert((a + b).drop_first() =~= a.drop_first() + b);
        assert((a + b)[0] == a[0]);
        lemma_encode_utf8_concat(a.drop_first(), b);
    }
}

/// A text takes at least one and at most four octets for each character.
pub proof fn lemma_encode_utf8_length(s: Seq<char>)
    ensures
        s.len() <= encode_utf8(s).len() <= 4 * s.len(),
    decreases s.len(),
{
    if s.len() > 0 {
        lemma_encode_utf8_length(s.drop_first());
    }
}

} // verus!
