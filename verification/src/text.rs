//! Byte- and character-level helpers shared by the readers: ASCII
//! classes, UTF-8 boundary facts, and exact substring extraction.
use vstd::prelude::*;
use vstd::utf8::*;
use vstd::string::*;

verus! {

broadcast use vstd::utf8::group_utf8_lib;

pub open spec fn is_ascii_digit_spec(c: u8) -> bool {
    48 <= c <= 57
}

pub open spec fn is_ascii_upper_spec(c: u8) -> bool {
    65 <= c <= 90
}

pub open spec fn is_ascii_lower_spec(c: u8) -> bool {
    97 <= c <= 122
}

pub open spec fn is_ascii_alpha_spec(c: u8) -> bool {
    is_ascii_upper_spec(c) || is_ascii_lower_spec(c)
}

pub open spec fn is_ascii_alnum_spec(c: u8) -> bool {
    is_ascii_alpha_spec(c) || is_ascii_digit_spec(c)
}

pub open spec fn is_ascii_hex_spec(c: u8) -> bool {
    is_ascii_digit_spec(c) || (97 <= c <= 102) || (65 <= c <= 70)
}

pub fn is_ascii_digit(c: u8) -> (r: bool)
    ensures
        r == is_ascii_digit_spec(c),
{
    48 <= c && c <= 57
}

pub fn is_ascii_upper(c: u8) -> (r: bool)
    ensures
        r == is_ascii_upper_spec(c),
{
    65 <= c && c <= 90
}

pub fn is_ascii_lower(c: u8) -> (r: bool)
    ensures
        r == is_ascii_lower_spec(c),
{
    97 <= c && c <= 122
}

pub fn is_ascii_alpha(c: u8) -> (r: bool)
    ensures
        r == is_ascii_alpha_spec(c),
{
    is_ascii_upper(c) || is_ascii_lower(c)
}

pub fn is_ascii_alnum(c: u8) -> (r: bool)
    ensures
        r == is_ascii_alnum_spec(c),
{
    is_ascii_alpha(c) || is_ascii_digit(c)
}

pub fn is_ascii_hex(c: u8) -> (r: bool)
    ensures
        r == is_ascii_hex_spec(c),
{
    is_ascii_digit(c) || (97 <= c && c <= 102) || (65 <= c && c <= 70)
}

/// A byte index that falls on a character boundary because it is the end
/// of the text, or an ASCII byte starts or ends there.
pub open spec fn ascii_edge(b: Seq<u8>, i: int) -> bool {
    ||| i == b.len()
    ||| (0 <= i < b.len() && b[i] < 0x80)
    ||| (0 < i <= b.len() && b[i - 1] < 0x80)
}

proof fn lemma_after_ascii_is_boundary(b: Seq<u8>, k: int)
    requires
        valid_utf8(b),
        is_char_boundary(b, k),
        0 <= k < b.len(),
        b[k] < 0x80,
    ensures
        is_char_boundary(b, k + 1),
    decreases b.len(),
{
    reveal_with_fuel(is_char_boundary, 2);
    let first = length_of_first_scalar(b);
    assert(valid_first_scalar(b));
    assert(first >= 1);
    let rest = pop_first_scalar(b);
    assert(rest.len() == b.len() - first);
    if k == 0 {
        assert(first == 1);
    } else {
        assert(valid_utf8(rest));
        assert(is_char_boundary(rest, k - first));
        assert(k - first >= 0);
        assert(rest[k - first] == b[k]);
        lemma_after_ascii_is_boundary(rest, k - first);
    }
}

/// Every ASCII edge of valid UTF-8 is a character boundary.
pub proof fn lemma_ascii_edge_is_boundary(b: Seq<u8>, i: int)
    requires
        valid_utf8(b),
        ascii_edge(b, i),
    ensures
        is_char_boundary(b, i),
{
    if i == b.len() {
        is_char_boundary_start_end_of_seq(b);
    } else if 0 <= i < b.len() && b[i] < 0x80 {
        is_char_boundary_iff_not_is_continuation_byte(b, i);
    } else {
        is_char_boundary_iff_not_is_continuation_byte(b, i - 1);
        lemma_after_ascii_is_boundary(b, i - 1);
    }
}

proof fn lemma_prefix_boundary(b: Seq<u8>, start: int, end: int)
    requires
        valid_utf8(b),
        0 <= start <= end <= b.len(),
        is_char_boundary(b, start),
        is_char_boundary(b, end),
    ensures
        valid_utf8(b.subrange(0, end)),
        is_char_boundary(b.subrange(0, end), start),
{
    valid_utf8_split(b, end);
    let p = b.subrange(0, end);
    if start == end {
        is_char_boundary_start_end_of_seq(p);
    } else {
        is_char_boundary_iff_not_is_continuation_byte(b, start);
        is_char_boundary_iff_not_is_continuation_byte(p, start);
    }
}

/// The part of `source` between two byte offsets that fall on character
/// boundaries.
pub fn str_slice<'a>(source: &'a str, start: usize, end: usize) -> (r: &'a str)
    requires
        start <= end <= source.spec_bytes().len(),
        is_char_boundary(source.spec_bytes(), start as int),
        is_char_boundary(source.spec_bytes(), end as int),
    ensures
        r.spec_bytes() == source.spec_bytes().subrange(start as int, end as int),
{
    proof {
        encode_utf8_valid_utf8(source@);
        lemma_prefix_boundary(source.spec_bytes(), start as int, end as int);
    }
    let (prefix, _) = source.split_at(end);
    let (_, middle) = prefix.split_at(start);
    assert(middle.spec_bytes() =~= source.spec_bytes().subrange(start as int, end as int));
    middle
}

/// An owned copy of the part of `source` between two boundary offsets.
pub fn owned_slice(source: &str, start: usize, end: usize) -> (r: String)
    requires
        start <= end <= source.spec_bytes().len(),
        is_char_boundary(source.spec_bytes(), start as int),
        is_char_boundary(source.spec_bytes(), end as int),
    ensures
        encode_utf8(r@) == source.spec_bytes().subrange(start as int, end as int),
{
    let middle = str_slice(source, start, end);
    middle.to_owned()
}

/// Whether two byte sequences are equal, element by element.
pub fn bytes_equal(a: &[u8], b: &[u8]) -> (r: bool)
    ensures
        r == (a@ == b@),
{
    if a.len() != b.len() {
        return false;
    }
    let mut i: usize = 0;
    while i < a.len()
        invariant
            a@.len() == b@.len(),
            0 <= i <= a@.len(),
            forall|k: int| 0 <= k < i ==> a@[k] == b@[k],
        decreases a@.len() - i,
    {
        if a[i] != b[i] {
            return false;
        }
        i = i + 1;
    }
    assert(a@ =~= b@);
    true
}

/// Whether two strings hold the same characters.
pub fn str_equal(a: &str, b: &str) -> (r: bool)
    ensures
        r == (a@ == b@),
{
    let x = a.as_bytes();
    let y = b.as_bytes();
    let r = bytes_equal(x, y);
    proof {
        encode_utf8_decode_utf8(a@);
        encode_utf8_decode_utf8(b@);
    }
    r
}

/// The byte-wise (and therefore character-wise) lexicographic order of
/// strings: negative, zero or positive as `a` sorts before, equal to, or
/// after `b`.
pub open spec fn bytes_compare(a: Seq<u8>, b: Seq<u8>) -> int
    decreases a.len(),
{
    if a.len() == 0 && b.len() == 0 {
        0
    } else if a.len() == 0 {
        -1
    } else if b.len() == 0 {
        1
    } else if a[0] < b[0] {
        -1
    } else if a[0] > b[0] {
        1
    } else {
        bytes_compare(a.drop_first(), b.drop_first())
    }
}

pub proof fn lemma_bytes_compare_zero(a: Seq<u8>, b: Seq<u8>)
    ensures
        (bytes_compare(a, b) == 0) <==> (a == b),
    decreases a.len(),
{
    if a.len() > 0 && b.len() > 0 && a[0] == b[0] {
        lemma_bytes_compare_zero(a.drop_first(), b.drop_first());
        if a.drop_first() == b.drop_first() {
            assert(a =~= seq![a[0]] + a.drop_first());
            assert(b =~= seq![b[0]] + b.drop_first());
        }
        if a == b {
            assert(a.drop_first() =~= b.drop_first());
        }
    } else if a.len() == 0 && b.len() == 0 {
        assert(a =~= b);
    } else if a.len() > 0 && b.len() > 0 {
        assert(a[0] != b[0]);
    }
}

pub proof fn lemma_bytes_compare_antisymmetric(a: Seq<u8>, b: Seq<u8>)
    ensures
        bytes_compare(a, b) == -bytes_compare(b, a),
        -1 <= bytes_compare(a, b) <= 1,
    decreases a.len(),
{
    if a.len() > 0 && b.len() > 0 && a[0] == b[0] {
        lemma_bytes_compare_antisymmetric(a.drop_first(), b.drop_first());
    }
}

pub proof fn lemma_bytes_compare_transitive(a: Seq<u8>, b: Seq<u8>, c: Seq<u8>)
    requires
        bytes_compare(a, b) < 0,
        bytes_compare(b, c) < 0,
    ensures
        bytes_compare(a, c) < 0,
    decreases a.len(),
{
    if a.len() > 0 && b.len() > 0 && c.len() > 0 && a[0] == b[0] && b[0] == c[0] {
        lemma_bytes_compare_transitive(a.drop_first(), b.drop_first(), c.drop_first());
    }
}

fn compare_bytes_from(a: &[u8], b: &[u8], i: usize) -> (r: i8)
    requires
        i <= a@.len(),
        i <= b@.len(),
    ensures
        r as int == bytes_compare(a@.skip(i as int), b@.skip(i as int)),
    decreases a@.len() - i,
{
    if i == a.len() && i == b.len() {
        0
    } else if i == a.len() {
        -1
    } else if i == b.len() {
        1
    } else if a[i] < b[i] {
        -1
    } else if a[i] > b[i] {
        1
    } else {
        assert(a@.skip(i as int).drop_first() =~= a@.skip(i + 1));
        assert(b@.skip(i as int).drop_first() =~= b@.skip(i + 1));
        compare_bytes_from(a, b, i + 1)
    }
}

/// Three-way lexicographic comparison of two byte sequences.
pub fn compare_bytes(a: &[u8], b: &[u8]) -> (r: i8)
    ensures
        r as int == bytes_compare(a@, b@),
{
    assert(a@.skip(0) =~= a@);
    assert(b@.skip(0) =~= b@);
    compare_bytes_from(a, b, 0)
}

/// Three-way comparison of strings in the order `String` sorts by.
pub fn compare_str(a: &str, b: &str) -> (r: i8)
    ensures
        r as int == bytes_compare(a.spec_bytes(), b.spec_bytes()),
{
    compare_bytes(a.as_bytes(), b.as_bytes())
}

/// The characters of a string, one by one.
pub fn chars_of(s: &str) -> (r: Vec<char>)
    ensures
        r@ == s@,
{
    let n = s.unicode_len();
    let mut out: Vec<char> = Vec::new();
    let mut i: usize = 0;
    while i < n
        invariant
            n == s@.len(),
            0 <= i <= n,
            out@ == s@.subrange(0, i as int),
        decreases n - i,
    {
        let c = s.get_char(i);
        out.push(c);
        i = i + 1;
        assert(out@ =~= s@.subrange(0, i as int));
    }
    assert(s@.subrange(0, n as int) =~= s@);
    out
}

/// A new string holding exactly the given characters.
pub fn string_from_chars(chars: &Vec<char>) -> (r: String)
    ensures
        r@ == chars@,
{
    let mut out = String::new();
    let mut i: usize = 0;
    while i < chars.len()
        invariant
            0 <= i <= chars@.len(),
            out@ == chars@.subrange(0, i as int),
        decreases chars@.len() - i,
    {
        push_char(&mut out, chars[i]);
        i = i + 1;
        assert(out@ =~= chars@.subrange(0, i as int));
    }
    assert(chars@.subrange(0, chars@.len() as int) =~= chars@);
    out
}

/// Appends one character to a string.
#[verifier::external_body]
pub(crate) fn push_char(s: &mut String, c: char)
    ensures
        final(s)@ == old(s)@.push(c),
{
    s.push(c);
}

/// A fresh string with the characters of `s`.
pub fn string_of(s: &str) -> (r: String)
    ensures
        r@ == s@,
{
    s.to_owned()
}

/// Whether the string contains the character `c`.
pub fn contains_char(s: &str, c: char) -> (r: bool)
    ensures
        r == s@.contains(c),
{
    let chars = chars_of(s);
    let mut i: usize = 0;
    while i < chars.len()
        invariant
            chars@ == s@,
            0 <= i <= chars@.len(),
            forall|k: int| 0 <= k < i ==> chars@[k] != c,
        decreases chars@.len() - i,
    {
        if chars[i] == c {
            return true;
        }
        i = i + 1;
    }
    false
}

/// The decimal digit character for `d < 10`.
pub open spec fn digit_char(d: nat) -> char {
    if d == 0 {
        '0'
    } else if d == 1 {
        '1'
    } else if d == 2 {
        '2'
    } else if d == 3 {
        '3'
    } else if d == 4 {
        '4'
    } else if d == 5 {
        '5'
    } else if d == 6 {
        '6'
    } else if d == 7 {
        '7'
    } else if d == 8 {
        '8'
    } else {
        '9'
    }
}

/// The decimal numeral of `n`, most significant digit first.
pub open spec fn decimal_spec(n: nat) -> Seq<char>
    decreases n,
{
    if n < 10 {
        seq![digit_char(n)]
    } else {
        decimal_spec(n / 10).push(digit_char(n % 10))
    }
}

fn digit_of(d: usize) -> (r: char)
    requires
        d < 10,
    ensures
        r == digit_char(d as nat),
{
    if d == 0 {
        '0'
    } else if d == 1 {
        '1'
    } else if d == 2 {
        '2'
    } else if d == 3 {
        '3'
    } else if d == 4 {
        '4'
    } else if d == 5 {
        '5'
    } else if d == 6 {
        '6'
    } else if d == 7 {
        '7'
    } else if d == 8 {
        '8'
    } else {
        '9'
    }
}

/// The decimal numeral of `n`.
pub fn decimal_text(n: usize) -> (r: String)
    ensures
        r@ == decimal_spec(n as nat),
    decreases n,
{
    if n < 10 {
        let mut s = String::new();
        push_char(&mut s, digit_of(n));
        assert(s@ =~= seq![digit_char(n as nat)]);
        s
    } else {
        let mut s = decimal_text(n / 10);
        push_char(&mut s, digit_of(n % 10));
        s
    }
}

} // verus!
