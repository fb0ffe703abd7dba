//! ASCII text helpers: decimal digits, decimal rendering, substring search.
//!
//! Everything is stated over byte sequences; a `String` enters only at the
//! edges, through `str::as_bytes` and one trusted decoding step.

use vstd::prelude::*;

verus! {

/// `b` is an ASCII decimal digit.
pub open spec fn is_digit(b: u8) -> bool {
    48 <= b && b <= 57
}

/// Numeric value of one digit byte.
pub open spec fn digit_val(b: u8) -> nat
    recommends
        is_digit(b),
{
    (b - 48) as nat
}

/// All bytes of `s` are decimal digits.
pub open spec fn all_digits(s: Seq<u8>) -> bool {
    forall|i: int| 0 <= i < s.len() ==> is_digit(#[trigger] s[i])
}

/// Numeric value of a digit sequence, most significant digit first.
pub open spec fn digits_value(s: Seq<u8>) -> nat
    decreases s.len(),
{
    if s.len() == 0 {
        0
    } else {
        digits_value(s.drop_last()) * 10 + digit_val(s.last())
    }
}

/// Canonical decimal rendering of `n`, as ASCII digit bytes.
pub open spec fn dec(n: nat) -> Seq<u8>
    decreases n,
{
    if n < 10 {
        seq![(n + 48) as u8]
    } else {
        dec(n / 10).push((n % 10 + 48) as u8)
    }
}

/// A digit run that some number renders to: non-empty, and without a
/// superfluous leading zero.
pub open spec fn canonical_digits(s: Seq<u8>) -> bool {
    &&& all_digits(s)
    &&& s.len() >= 1
    &&& (s.len() > 1 ==> s[0] != 48)
}

/// The bytes of `s`, each read as the character with that code.
pub open spec fn ascii_str(s: Seq<u8>) -> Seq<char> {
    s.map_values(|b: u8| b as char)
}

/// Every rendered decimal is a canonical digit run.
pub proof fn lemma_dec_is_canonical(n: nat)
    ensures
        canonical_digits(dec(n)),
        digits_value(dec(n)) == n,
        n >= 1 ==> dec(n)[0] != 48,
    decreases n,
{
    if n < 10 {
        assert(dec(n) =~= seq![(n + 48) as u8]);
        assert(digits_value(dec(n).drop_last()) == 0);
        assert(is_digit(dec(n)[0]));
    } else {
        lemma_dec_is_canonical(n / 10);
        let d = dec(n / 10);
        assert(dec(n) =~= d.push((n % 10 + 48) as u8));
        assert(dec(n).drop_last() =~= d);
        assert(dec(n).last() == (n % 10 + 48) as u8);
        assert(digits_value(dec(n)) == digits_value(d) * 10 + (n % 10));
        assert(n / 10 * 10 + n % 10 == n) by (nonlinear_arith);
        assert(n / 10 >= 1);
        assert(dec(n)[0] == d[0]);
        assert forall|i: int| 0 <= i < dec(n).len() implies is_digit(#[trigger] dec(n)[i]) by {
            if i < d.len() {
                assert(dec(n)[i] == d[i]);
            } else {
                assert(dec(n)[i] == (n % 10 + 48) as u8);
            }
        }
    }
}

/// A digit run with a leading non-zero digit has value at least one, and at
/// least ten if it is longer than one digit.
proof fn lemma_value_lower_bound(s: Seq<u8>)
    requires
        all_digits(s),
        s.len() >= 1,
        s[0] != 48,
    ensures
        digits_value(s) >= 1,
        s.len() >= 2 ==> digits_value(s) >= 10,
    decreases s.len(),
{
    if s.len() == 1 {
        assert(digit_val(s[0]) >= 1);
        assert(digits_value(s.drop_last()) == 0);
    } else {
        let dl = s.drop_last();
        assert(dl[0] == s[0]);
        lemma_value_lower_bound(dl);
    }
}

/// A digit run of at most three digits stays under one thousand.
pub proof fn lemma_short_run_value(s: Seq<u8>)
    requires
        all_digits(s),
        s.len() <= 3,
    ensures
        digits_value(s) <= 999,
        s.len() <= 2 ==> digits_value(s) <= 99,
        s.len() <= 1 ==> digits_value(s) <= 9,
    decreases s.len(),
{
    if s.len() > 0 {
        let dl = s.drop_last();
        assert(all_digits(dl));
        lemma_short_run_value(dl);
    }
}

/// Decimal rendering is the inverse of reading a canonical digit run: the
/// run is recovered exactly from its value.
pub proof fn lemma_dec_round_trip(s: Seq<u8>)
    requires
        canonical_digits(s),
    ensures
        dec(digits_value(s)) == s,
    decreases s.len(),
{
    let n = digits_value(s);
    if s.len() == 1 {
        assert(digits_value(s.drop_last()) == 0);
        assert(n == digit_val(s[0]));
        assert(dec(n) =~= s);
    } else {
        let dl = s.drop_last();
        let d = digit_val(s.last());
        assert(dl[0] == s[0]);
        lemma_value_lower_bound(s);
        assert(n == digits_value(dl) * 10 + d);
        assert(digits_value(dl) >= 1);
        assert(n >= 10);
        let q = digits_value(dl);
        assert(n / 10 == q && n % 10 == d) by (nonlinear_arith)
            requires
                n == q * 10 + d,
                d < 10,
                q >= 0,
        ;
        lemma_dec_round_trip(dl);
        assert(dec(n) =~= dec(q).push((d + 48) as u8));
        assert((d + 48) as u8 == s.last());
        assert(dec(n) =~= s);
    }
}

/// Renders `n` in decimal as ASCII digit bytes.
pub fn u64_to_dec(n: u64) -> (r: Vec<u8>)
    ensures
        r@ == dec(n as nat),
    decreases n,
{
    if n < 10 {
        let mut v: Vec<u8> = Vec::new();
        v.push((n as u8) + 48);
        proof {
            assert(v@ =~= dec(n as nat));
        }
        v
    } else {
        let mut v = u64_to_dec(n / 10);
        v.push(((n % 10) as u8) + 48);
        proof {
            assert(v@ =~= dec(n as nat));
        }
        v
    }
}

/// Relies on `String::from_utf8`: bytes below 128 are valid UTF-8 and decode
/// to one character per byte, each the character with that byte's code.
#[verifier::external_body]
pub(crate) fn ascii_bytes_to_string(v: Vec<u8>) -> (r: String)
    requires
        forall|i: int| 0 <= i < v@.len() ==> v@[i] < 128,
    ensures
        r@ == ascii_str(v@),
{
    String::from_utf8(v).unwrap_or_default()
}

/// `pat` occurs in `s` at position `i`.
pub open spec fn contains_at(s: Seq<u8>, i: int, pat: Seq<u8>) -> bool {
    &&& 0 <= i
    &&& i + pat.len() <= s.len()
    &&& s.subrange(i, i + pat.len()) == pat
}

/// `pat` occurs somewhere in `s`.
pub open spec fn has_substring(s: Seq<u8>, pat: Seq<u8>) -> bool {
    exists|i: int| contains_at(s, i, pat)
}

/// Does `pat` occur in `s` at position `i`?
pub fn contains_at_exec(s: &[u8], i: usize, pat: &[u8]) -> (r: bool)
    ensures
        r == contains_at(s@, i as int, pat@),
{
    if i > s.len() || pat.len() > s.len() - i {
        return false;
    }
    let mut j: usize = 0;
    while j < pat.len()
        invariant
            i + pat.len() <= s.len(),
            j <= pat.len(),
            forall|k: int| 0 <= k < j ==> s@[i + k] == pat@[k],
        decreases pat.len() - j,
    {
        if s[i + j] != pat[j] {
            assert(s@.subrange(i as int, i + pat@.len())[j as int] != pat@[j as int]);
            return false;
        }
        j += 1;
    }
    proof {
        assert(s@.subrange(i as int, i + pat@.len()) =~= pat@);
    }
    true
}

/// Does `pat` occur anywhere in `s`?
pub fn has_substring_exec(s: &[u8], pat: &[u8]) -> (r: bool)
    ensures
        r == has_substring(s@, pat@),
{
    if pat.len() > s.len() {
        assert(forall|i: int| !contains_at(s@, i, pat@));
        return false;
    }
    if pat.len() == 0 {
        proof {
            assert(s@.subrange(0, 0) =~= pat@);
            assert(contains_at(s@, 0, pat@));
        }
        return true;
    }
    let mut i: usize = 0;
    while i <= s.len() - pat.len()
        invariant
            1 <= pat.len() <= s.len(),
            i <= s.len() - pat.len() + 1,
            forall|k: int| 0 <= k < i ==> !contains_at(s@, k, pat@),
        decreases s.len() - i,
    {
        if contains_at_exec(s, i, pat) {
            return true;
        }
        i += 1;
    }
    assert(forall|k: int| k > s@.len() - pat@.len() ==> !contains_at(s@, k, pat@));
    false
}

/// ASCII lower-casing of one byte.
pub open spec fn lower_byte(b: u8) -> u8 {
    if 65 <= b && b <= 90 {
        (b + 32) as u8
    } else {
        b
    }
}

/// ASCII lower-casing of a byte sequence.
pub open spec fn lower(s: Seq<u8>) -> Seq<u8> {
    s.map_values(|b: u8| lower_byte(b))
}

/// ASCII lower-cases every byte of `s`.
pub fn lower_exec(s: &[u8]) -> (r: Vec<u8>)
    ensures
        r@ == lower(s@),
{
    let mut r: Vec<u8> = Vec::new();
    let mut i: usize = 0;
    while i < s.len()
        invariant
            i <= s.len(),
            r@.len() == i,
            forall|k: int| 0 <= k < i ==> r@[k] == lower_byte(s@[k]),
        decreases s.len() - i,
    {
        let b = s[i];
        if 65 <= b && b <= 90 {
            r.push(b + 32);
        } else {
            r.push(b);
        }
        i += 1;
    }
    proof {
        assert(r@ =~= lower(s@));
    }
    r
}

/// UTF-8 bytes of a character sequence; what `str::as_bytes` hands out.
pub open spec fn utf8_bytes(s: Seq<char>) -> Seq<u8> {
    vstd::utf8::encode_utf8(s)
}

/// `b` is one of the ASCII whitespace bytes.
pub open spec fn is_space(b: u8) -> bool {
    b == 32 || b == 9 || b == 10 || b == 11 || b == 12 || b == 13
}

/// `b` is an ASCII word byte: a letter, a digit or an underscore.
pub open spec fn is_word(b: u8) -> bool {
    is_digit(b) || (65 <= b && b <= 90) || (97 <= b && b <= 122) || b == 95
}

/// The classes of bytes whose maximal runs the extraction patterns read.
#[derive(Clone, Copy)]
pub enum ByteClass {
    Digit,
    Space,
    Word,
}

/// Membership of a byte in a class.
pub open spec fn in_class(c: ByteClass, b: u8) -> bool {
    match c {
        ByteClass::Digit => is_digit(b),
        ByteClass::Space => is_space(b),
        ByteClass::Word => is_word(b),
    }
}

/// End of the maximal run of class `c` starting at `i`: the first position at
/// or after `i` holding no byte of the class.
pub open spec fn run_end(s: Seq<u8>, i: int, c: ByteClass) -> int
    decreases s.len() - i,
{
    if i < 0 || i >= s.len() || !in_class(c, s[i]) {
        i
    } else {
        run_end(s, i + 1, c)
    }
}

/// Bounds and contents of a maximal class run.
pub proof fn lemma_run_end(s: Seq<u8>, i: int, c: ByteClass)
    requires
        0 <= i <= s.len(),
    ensures
        i <= run_end(s, i, c) <= s.len(),
        forall|j: int| i <= j < run_end(s, i, c) ==> in_class(c, #[trigger] s[j]),
        run_end(s, i, c) < s.len() ==> !in_class(c, s[run_end(s, i, c)]),
    decreases s.len() - i,
{
    if i < s.len() && in_class(c, s[i]) {
        lemma_run_end(s, i + 1, c);
    }
}

/// Walks to the end of the maximal run of class `c` starting at `i`.
pub fn run_end_exec(s: &[u8], i: usize, c: ByteClass) -> (r: usize)
    requires
        i <= s.len(),
    ensures
        r == run_end(s@, i as int, c),
{
    let mut j: usize = i;
    loop
        invariant
            i <= j <= s.len(),
            run_end(s@, i as int, c) == run_end(s@, j as int, c),
        decreases s.len() - j,
    {
        if j >= s.len() {
            return j;
        }
        let b = s[j];
        let hit = match c {
            ByteClass::Digit => 48 <= b && b <= 57,
            ByteClass::Space => b == 32 || (9 <= b && b <= 13),
            ByteClass::Word => 48 <= b && b <= 57 || 65 <= b && b <= 90 || 97 <= b && b <= 122
                || b == 95,
        };
        if !hit {
            assert(!in_class(c, s@[j as int]));
            return j;
        }
        j += 1;
    }
}

/// Copies the bytes `s[from..to]` out into a vector.
pub fn copy_range(s: &[u8], from: usize, to: usize) -> (r: Vec<u8>)
    requires
        from <= to <= s.len(),
    ensures
        r@ == s@.subrange(from as int, to as int),
{
    let mut r: Vec<u8> = Vec::new();
    let mut j: usize = from;
    while j < to
        invariant
            from <= j <= to <= s.len(),
            r@.len() == j - from,
            forall|k: int| 0 <= k < r@.len() ==> r@[k] == s@[from + k],
        decreases to - j,
    {
        r.push(s[j]);
        j += 1;
    }
    proof {
        assert(r@ =~= s@.subrange(from as int, to as int));
    }
    r
}

/// Byte-for-byte equality of a slice and a second slice.
pub fn bytes_eq(a: &[u8], b: &[u8]) -> (r: bool)
    ensures
        r == (a@ == b@),
{
    if a.len() != b.len() {
        assert(a@.len() != b@.len());
        return false;
    }
    let mut i: usize = 0;
    while i < a.len()
        invariant
            a@.len() == b@.len(),
            i <= a.len(),
            forall|k: int| 0 <= k < i ==> a@[k] == b@[k],
        decreases a.len() - i,
    {
        if a[i] != b[i] {
            return false;
        }
        i += 1;
    }
    proof {
        assert(a@ =~= b@);
    }
    true
}

} // verus!
