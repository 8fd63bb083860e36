//! Character-sequence utilities shared by the parser, the resolver and the
//! input matcher: equality, prefix and suffix tests, substring search,
//! splitting on a separator, trimming, and decimal conversions.

use vstd::prelude::*;

verus! {

/// Appends one character to a string.
///
/// Relies on `String::push`: appends the given `char` to the end of this `String`.
#[verifier::external_body]
pub(crate) fn push_char(s: &mut String, c: char)
    ensures
        final(s)@ == old(s)@.push(c),
{
    s.push(c);
}

/// Whether two string slices hold the same characters.
pub fn str_eq(a: &str, b: &str) -> (r: bool)
    ensures
        r == (a@ == b@),
{
    let alen = a.unicode_len();
    let blen = b.unicode_len();
    if alen != blen {
        return false;
    }
    let mut i: usize = 0;
    while i < alen
        invariant
            i <= alen,
            alen == a@.len(),
            alen == b@.len(),
            forall|j: int| 0 <= j < i ==> a@[j] == b@[j],
        decreases alen - i,
    {
        if a.get_char(i) != b.get_char(i) {
            return false;
        }
        i += 1;
    }
    proof {
        assert(a@ =~= b@);
    }
    true
}

/// `p` occurs at the front of `s`.
pub open spec fn has_prefix(s: Seq<char>, p: Seq<char>) -> bool {
    p.len() <= s.len() && s.subrange(0, p.len() as int) == p
}

/// `p` occurs at the end of `s`.
pub open spec fn has_suffix(s: Seq<char>, p: Seq<char>) -> bool {
    p.len() <= s.len() && s.subrange(s.len() - p.len(), s.len() as int) == p
}

/// Whether `s` begins with the characters of `p`.
pub fn str_starts_with(s: &str, p: &str) -> (r: bool)
    ensures
        r == has_prefix(s@, p@),
{
    let slen = s.unicode_len();
    let plen = p.unicode_len();
    if plen > slen {
        return false;
    }
    let mut i: usize = 0;
    while i < plen
        invariant
            i <= plen,
            plen <= slen,
            slen == s@.len(),
            plen == p@.len(),
            forall|j: int| 0 <= j < i ==> s@[j] == p@[j],
        decreases plen - i,
    {
        if s.get_char(i) != p.get_char(i) {
            proof {
                assert(s@.subrange(0, p@.len() as int)[i as int] == s@[i as int]);
            }
            return false;
        }
        i += 1;
    }
    proof {
        assert(s@.subrange(0, p@.len() as int) =~= p@);
    }
    true
}

/// Whether `s` ends with the characters of `p`.
pub fn str_ends_with(s: &str, p: &str) -> (r: bool)
    ensures
        r == has_suffix(s@, p@),
{
    let slen = s.unicode_len();
    let plen = p.unicode_len();
    if plen > slen {
        return false;
    }
    let off = slen - plen;
    let mut i: usize = 0;
    while i < plen
        invariant
            i <= plen,
            plen <= slen,
            slen == s@.len(),
            plen == p@.len(),
            off == slen - plen,
            forall|j: int| 0 <= j < i ==> s@[off + j] == p@[j],
        decreases plen - i,
    {
        if s.get_char(off + i) != p.get_char(i) {
            proof {
                assert(s@.subrange(s@.len() - p@.len(), s@.len() as int)[i as int] == s@[off + i]);
            }
            return false;
        }
        i += 1;
    }
    proof {
        assert(s@.subrange(s@.len() - p@.len(), s@.len() as int) =~= p@);
    }
    true
}

/// `sep` occurs in `s` starting at position `i`.
pub open spec fn matches_at(s: Seq<char>, sep: Seq<char>, i: int) -> bool {
    0 <= i && i + sep.len() <= s.len() && s.subrange(i, i + sep.len() as int) == sep
}

/// The first position at or after `from` where `sep` occurs in `s`.
pub open spec fn find_from(s: Seq<char>, sep: Seq<char>, from: int) -> Option<int>
    decreases s.len() - from,
    via find_from_decreases
{
    if from < 0 || from + sep.len() > s.len() {
        None
    } else if matches_at(s, sep, from) {
        Some(from)
    } else {
        find_from(s, sep, from + 1)
    }
}

#[via_fn]
proof fn find_from_decreases(s: Seq<char>, sep: Seq<char>, from: int) {
    if !(from < 0 || from + sep.len() > s.len()) && !matches_at(s, sep, from) {
        if sep.len() == 0 {
            assert(s.subrange(from, from) =~= sep);
        }
    }
}

/// The first position where `sep` occurs in `s`.
pub open spec fn find_sub(s: Seq<char>, sep: Seq<char>) -> Option<int> {
    find_from(s, sep, 0)
}

/// `find_from` returns the first match at or after `from`, or reports that
/// there is none.
pub proof fn lemma_find_from_props(s: Seq<char>, sep: Seq<char>, from: int)
    requires
        0 <= from,
    ensures
        match find_from(s, sep, from) {
            Some(i) => from <= i && matches_at(s, sep, i) && forall|j: int|
                from <= j < i ==> !matches_at(s, sep, j),
            None => forall|j: int| from <= j ==> !matches_at(s, sep, j),
        },
    decreases s.len() - from,
{
    if from + sep.len() > s.len() {
    } else if matches_at(s, sep, from) {
    } else {
        if sep.len() == 0 {
            assert(s.subrange(from, from) =~= sep);
        }
        lemma_find_from_props(s, sep, from + 1);
    }
}

/// Whether `sep` occurs in `s` at position `i`.
fn match_at(s: &str, sep: &str, i: usize) -> (r: bool)
    requires
        i + sep@.len() <= s@.len(),
    ensures
        r == matches_at(s@, sep@, i as int),
{
    let n = s.unicode_len();
    let m = sep.unicode_len();
    let mut j: usize = 0;
    while j < m
        invariant
            j <= m,
            n == s@.len(),
            m == sep@.len(),
            i + m <= n,
            forall|k: int| 0 <= k < j ==> s@[i + k] == sep@[k],
        decreases m - j,
    {
        if s.get_char(i + j) != sep.get_char(j) {
            proof {
                assert(s@.subrange(i as int, i + m as int)[j as int] == s@[i + j]);
            }
            return false;
        }
        j += 1;
    }
    proof {
        assert(s@.subrange(i as int, i + m as int) =~= sep@);
    }
    true
}

/// The first position where `sep` occurs in `s`, if any.
pub fn find_sub_str(s: &str, sep: &str) -> (r: Option<usize>)
    ensures
        match r {
            Some(i) => find_sub(s@, sep@) == Some(i as int),
            None => find_sub(s@, sep@) is None,
        },
{
    let n = s.unicode_len();
    let m = sep.unicode_len();
    if m > n {
        return None;
    }
    if m == 0 {
        proof {
            assert(s@.subrange(0, 0) =~= sep@);
        }
        return Some(0);
    }
    let mut i: usize = 0;
    while i <= n - m
        invariant
            1 <= m <= n,
            n == s@.len(),
            m == sep@.len(),
            i <= n - m + 1,
            find_from(s@, sep@, 0) == find_from(s@, sep@, i as int),
        decreases n - m - i + 1,
    {
        if match_at(s, sep, i) {
            return Some(i);
        }
        i += 1;
    }
    None
}

/// The piece of `s` before the first occurrence of `sep`, or all of `s` when
/// `sep` does not occur.
pub open spec fn head_before(s: Seq<char>, sep: Seq<char>) -> Seq<char> {
    match find_sub(s, sep) {
        Some(i) => s.subrange(0, i),
        None => s,
    }
}

/// What follows the first occurrence of `sep` in `s`, if `sep` occurs.
pub open spec fn tail_after(s: Seq<char>, sep: Seq<char>) -> Option<Seq<char>> {
    match find_sub(s, sep) {
        Some(i) => Some(s.subrange(i + sep.len(), s.len() as int)),
        None => None,
    }
}

/// Splits `s` at the first occurrence of `sep`: the piece before it, and what
/// follows it when `sep` occurs at all.
pub fn split_first<'a>(s: &'a str, sep: &str) -> (r: (&'a str, Option<&'a str>))
    ensures
        r.0@ == head_before(s@, sep@),
        match r.1 {
            Some(t) => tail_after(s@, sep@) == Some(t@),
            None => tail_after(s@, sep@) is None,
        },
{
    match find_sub_str(s, sep) {
        Some(i) => {
            proof {
                lemma_find_from_props(s@, sep@, 0);
            }
            let n = s.unicode_len();
            let m = sep.unicode_len();
            (s.substring_char(0, i), Some(s.substring_char(i + m, n)))
        },
        None => (s, None),
    }
}

/// `s` without its leading spaces.
pub open spec fn trim_left(s: Seq<char>) -> Seq<char>
    decreases s.len(),
{
    if s.len() > 0 && s[0] == ' ' {
        trim_left(s.drop_first())
    } else {
        s
    }
}

/// `s` without its trailing spaces.
pub open spec fn trim_right(s: Seq<char>) -> Seq<char>
    decreases s.len(),
{
    if s.len() > 0 && s.last() == ' ' {
        trim_right(s.drop_last())
    } else {
        s
    }
}

/// `s` without leading and trailing spaces.
pub open spec fn trim_spaces(s: Seq<char>) -> Seq<char> {
    trim_right(trim_left(s))
}

/// The slice of `s` with leading and trailing spaces removed.
pub fn trim_str<'a>(s: &'a str) -> (r: &'a str)
    ensures
        r@ == trim_spaces(s@),
{
    let n = s.unicode_len();
    proof {
        assert(s@.subrange(0, n as int) =~= s@);
    }
    let mut a: usize = 0;
    while a < n && s.get_char(a) == ' '
        invariant
            a <= n,
            n == s@.len(),
            trim_left(s@) == trim_left(s@.subrange(a as int, n as int)),
        decreases n - a,
    {
        proof {
            assert(s@.subrange(a as int, n as int)[0] == s@[a as int]);
            assert(s@.subrange(a as int, n as int).drop_first() =~= s@.subrange(
                a + 1,
                n as int,
            ));
        }
        a += 1;
    }
    proof {
        if a < n {
            assert(s@.subrange(a as int, n as int)[0] == s@[a as int]);
        }
        assert(trim_left(s@) == s@.subrange(a as int, n as int));
    }
    let mut b: usize = n;
    while b > a && s.get_char(b - 1) == ' '
        invariant
            a <= b <= n,
            n == s@.len(),
            trim_left(s@) == s@.subrange(a as int, n as int),
            trim_right(s@.subrange(a as int, n as int)) == trim_right(
                s@.subrange(a as int, b as int),
            ),
        decreases b,
    {
        proof {
            assert(s@.subrange(a as int, b as int).last() == s@[b - 1]);
            assert(s@.subrange(a as int, b as int).drop_last() =~= s@.subrange(
                a as int,
                b - 1,
            ));
        }
        b -= 1;
    }
    proof {
        if b > a {
            assert(s@.subrange(a as int, b as int).last() == s@[b - 1]);
        }
        assert(trim_spaces(s@) == s@.subrange(a as int, b as int));
    }
    s.substring_char(a, b)
}

/// Whether `sub` occurs somewhere in `s` (an empty `sub` always does).
pub open spec fn contains_sub(s: Seq<char>, sub: Seq<char>) -> bool {
    find_sub(s, sub) is Some
}

/// Whether `sub` occurs as a contiguous substring of `s`.
pub fn str_contains(s: &str, sub: &str) -> (r: bool)
    ensures
        r == contains_sub(s@, sub@),
{
    find_sub_str(s, sub).is_some()
}

/// `c` is one of the ten decimal digit characters.
pub open spec fn is_dec_digit(c: char) -> bool {
    48 <= c as u32 && c as u32 <= 57
}

/// The numeric value of a decimal digit character.
pub open spec fn digit_val(c: char) -> int {
    c as u32 - 48
}

/// The digit character for a value below ten.
pub open spec fn digit_char(d: int) -> char {
    if d == 0 {
        '0'
    } else if d == 1 {
        '1'
    } else if d == 2 {
        '2'
    } else if d == 3 {
        '3'
    } else if d == 4 {
        '4'
    } else if d == 5 {
        '5'
    } else if d == 6 {
        '6'
    } else if d == 7 {
        '7'
    } else if d == 8 {
        '8'
    } else {
        '9'
    }
}

/// The decimal notation of `n`, without sign or leading zeros.
pub open spec fn dec_str(n: nat) -> Seq<char>
    decreases n,
{
    if n < 10 {
        seq![digit_char(n as int)]
    } else {
        dec_str(n / 10).push(digit_char((n % 10) as int))
    }
}

/// The decimal notation of `n`, with a leading minus sign when negative.
pub open spec fn int_dec_str(n: int) -> Seq<char> {
    if n < 0 {
        seq!['-'] + dec_str((-n) as nat)
    } else {
        dec_str(n as nat)
    }
}

/// The digit character for a value below ten.
fn digit_char_exec(d: u64) -> (c: char)
    requires
        d < 10,
    ensures
        c == digit_char(d as int),
{
    if d == 0 {
        '0'
    } else if d == 1 {
        '1'
    } else if d == 2 {
        '2'
    } else if d == 3 {
        '3'
    } else if d == 4 {
        '4'
    } else if d == 5 {
        '5'
    } else if d == 6 {
        '6'
    } else if d == 7 {
        '7'
    } else if d == 8 {
        '8'
    } else {
        '9'
    }
}

/// The decimal notation of `n`.
pub fn u64_to_string(n: u64) -> (r: String)
    ensures
        r@ == dec_str(n as nat),
{
    let mut digits: Vec<char> = Vec::new();
    let mut m = n;
    while m >= 10
        invariant
            dec_str(n as nat) =~= dec_str(m as nat) + digits@.reverse(),
        decreases m,
    {
        let ghost digits0 = digits@;
        let ghost m0 = m;
        let d = m % 10;
        digits.push(digit_char_exec(d));
        m = m / 10;
        proof {
            assert(dec_str(m0 as nat) == dec_str((m0 / 10) as nat).push(
                digit_char((m0 % 10) as int),
            ));
            assert(digits@ == digits0.push(digit_char(d as int)));
            assert(digits@.reverse() =~= seq![digit_char(d as int)] + digits0.reverse());
            assert(dec_str(m as nat) + digits@.reverse() =~= (dec_str(m as nat).push(
                digit_char(d as int),
            )) + digits0.reverse());
            assert(dec_str(n as nat) =~= dec_str(m as nat) + digits@.reverse());
        }
    }
    let ghost digits0 = digits@;
    digits.push(digit_char_exec(m));
    proof {
        assert(digits@.reverse() =~= seq![digit_char(m as int)] + digits0.reverse());
        assert(dec_str(m as nat) == seq![digit_char(m as int)]);
        assert(dec_str(n as nat) =~= digits@.reverse());
    }
    let mut r = String::new();
    let len = digits.len();
    let mut i = len;
    while i > 0
        invariant
            i <= len,
            len == digits@.len(),
            r@ =~= digits@.subrange(i as int, len as int).reverse(),
        decreases i,
    {
        i -= 1;
        let c = digits[i];
        push_char(&mut r, c);
        proof {
            assert(digits@.subrange(i as int, len as int).reverse() =~= digits@.subrange(
                i + 1,
                len as int,
            ).reverse().push(digits@[i as int]));
        }
    }
    proof {
        assert(digits@.subrange(0, len as int) =~= digits@);
    }
    r
}

/// The decimal notation of `n`, with a minus sign when negative.
pub fn i32_to_string(n: i32) -> (r: String)
    ensures
        r@ == int_dec_str(n as int),
{
    if n >= 0 {
        u64_to_string(n as u64)
    } else {
        let mut r = String::new();
        push_char(&mut r, '-');
        let mag: u64 = (-(n as i64)) as u64;
        let tail = u64_to_string(mag);
        r.append(tail.as_str());
        proof {
            assert(seq!['-'] + dec_str(mag as nat) =~= Seq::<char>::empty().push('-') + dec_str(
                mag as nat,
            ));
        }
        r
    }
}

/// Every character of `s` is a decimal digit.
pub open spec fn all_dec_digits(s: Seq<char>) -> bool {
    forall|i: int| 0 <= i < s.len() ==> is_dec_digit(s[i])
}

/// The number denoted by a sequence of decimal digits, most significant first.
pub open spec fn dec_val(s: Seq<char>) -> int
    decreases s.len(),
{
    if s.len() == 0 {
        0
    } else {
        dec_val(s.drop_last()) * 10 + digit_val(s.last())
    }
}

/// A digit string denotes a non-negative number.
pub proof fn lemma_dec_val_nonneg(s: Seq<char>)
    requires
        all_dec_digits(s),
    ensures
        dec_val(s) >= 0,
    decreases s.len(),
{
    if s.len() > 0 {
        assert(all_dec_digits(s.drop_last()));
        lemma_dec_val_nonneg(s.drop_last());
    }
}

/// Extending a digit string on the right never shrinks its value.
pub proof fn lemma_dec_val_prefix(s: Seq<char>, j: int)
    requires
        all_dec_digits(s),
        0 <= j <= s.len(),
    ensures
        dec_val(s) >= dec_val(s.subrange(0, j)),
    decreases s.len() - j,
{
    if j < s.len() {
        lemma_dec_val_prefix(s, j + 1);
        let p = s.subrange(0, j + 1);
        assert(p.drop_last() =~= s.subrange(0, j));
        assert(all_dec_digits(s.subrange(0, j)));
        lemma_dec_val_nonneg(s.subrange(0, j));
        assert(dec_val(p) == dec_val(s.subrange(0, j)) * 10 + digit_val(p.last()));
    } else {
        assert(s.subrange(0, j) =~= s);
    }
}

/// `s` without its single leading sign character, if it has one.
pub open spec fn sign_digits(s: Seq<char>) -> Seq<char> {
    if s.len() > 0 && (s[0] == '-' || s[0] == '+') {
        s.drop_first()
    } else {
        s
    }
}

/// The number denoted by `s` in the notation accepted for signed integers: an
/// optional sign followed by one or more decimal digits, within the range of
/// an `i32`.
pub open spec fn parse_i32_spec(s: Seq<char>) -> Option<i32> {
    let neg = s.len() > 0 && s[0] == '-';
    let ds = sign_digits(s);
    if ds.len() == 0 || !all_dec_digits(ds) {
        None
    } else {
        let v = if neg {
            -dec_val(ds)
        } else {
            dec_val(ds)
        };
        if -2147483648 <= v <= 2147483647 {
            Some(v as i32)
        } else {
            None
        }
    }
}

/// Reads `s` as a signed decimal integer, exactly when `s` is an optional
/// sign followed by digits and the value fits in an `i32`.
pub fn parse_i32(s: &str) -> (r: Option<i32>)
    ensures
        r == parse_i32_spec(s@),
{
    let n = s.unicode_len();
    if n == 0 {
        return None;
    }
    let c0 = s.get_char(0);
    let neg = c0 == '-';
    let start: usize = if c0 == '-' || c0 == '+' {
        1
    } else {
        0
    };
    let ghost ds = sign_digits(s@);
    proof {
        assert(ds =~= s@.subrange(start as int, n as int));
    }
    if start == n {
        return None;
    }
    let mut acc: i64 = 0;
    let mut i = start;
    while i < n
        invariant
            start <= i <= n,
            n == s@.len(),
            start == 0 || start == 1,
            start < n,
            ds == sign_digits(s@),
            ds == s@.subrange(start as int, n as int),
            all_dec_digits(ds.subrange(0, i - start)),
            acc == dec_val(ds.subrange(0, i - start)),
            0 <= acc <= 2147483648,
        decreases n - i,
    {
        let c = s.get_char(i);
        let cv = c as u32;
        if cv < 48 || cv > 57 {
            proof {
                assert(ds[i - start] == s@[i as int]);
                assert(!is_dec_digit(ds[i - start]));
                assert(!all_dec_digits(ds));
            }
            return None;
        }
        let d = (cv - 48) as i64;
        acc = acc * 10 + d;
        proof {
            let p = ds.subrange(0, i - start + 1);
            assert(p.drop_last() =~= ds.subrange(0, i - start));
            assert(p.last() == s@[i as int]);
        }
        i += 1;
        if acc > 2147483648 {
            proof {
                if all_dec_digits(ds) {
                    lemma_dec_val_prefix(ds, i - start);
                }
            }
            return None;
        }
    }
    proof {
        assert(ds.subrange(0, n - start) =~= ds);
    }
    if neg {
        let v = -acc;
        if v < -2147483648 {
            return None;
        }
        Some(v as i32)
    } else {
        if acc > 2147483647 {
            return None;
        }
        Some(acc as i32)
    }
}

} // verus!
