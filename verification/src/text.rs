//! Character-level text primitives.
//!
//! The probe parsers work on loosely structured tool output, so everything
//! here is defined over `Seq<char>` views: searching, tokenizing, trimming,
//! decimal parsing and formatting, and case-insensitive comparison.  All
//! positions are character positions, never byte positions.

use vstd::prelude::*;

verus! {

/// Whitespace for tokenizing tool output (the ASCII whitespace characters).
pub open spec fn is_ws(c: char) -> bool {
    c == ' ' || c == '\t' || c == '\n' || c == '\r' || c == '\x0b' || c == '\x0c'
}

/// An ASCII decimal digit.
pub open spec fn is_digit(c: char) -> bool {
    '0' <= c && c <= '9'
}

/// Value of an ASCII decimal digit.
pub open spec fn digit_val(c: char) -> nat
    recommends
        is_digit(c),
{
    (c as nat - '0' as nat) as nat
}

/// Executable whitespace test, equal to `is_ws`.
pub fn ws_char(c: char) -> (r: bool)
    ensures
        r == is_ws(c),
{
    c == ' ' || c == '\t' || c == '\n' || c == '\r' || c == '\x0b' || c == '\x0c'
}

/// Executable digit test, equal to `is_digit`.
pub fn digit_char(c: char) -> (r: bool)
    ensures
        r == is_digit(c),
{
    '0' <= c && c <= '9'
}

/// First position `>= i` holding `c`, if any.
pub open spec fn find_char_at(s: Seq<char>, c: char, i: int) -> Option<int>
    decreases s.len() - i,
{
    if i < 0 || i >= s.len() {
        None
    } else if s[i] == c {
        Some(i)
    } else {
        find_char_at(s, c, i + 1)
    }
}

/// First position holding `c`, if any.
pub open spec fn find_char(s: Seq<char>, c: char) -> Option<int> {
    find_char_at(s, c, 0)
}

/// Last position holding `c`, if any.
pub open spec fn rfind_char(s: Seq<char>, c: char) -> Option<int>
    decreases s.len(),
{
    if s.len() == 0 {
        None
    } else if s[s.len() - 1] == c {
        Some(s.len() - 1)
    } else {
        rfind_char(s.drop_last(), c)
    }
}

/// `pat` occurs in `s` starting at position `i`.
pub open spec fn matches_at(s: Seq<char>, pat: Seq<char>, i: int) -> bool {
    0 <= i && i + pat.len() <= s.len() && s.subrange(i, i + pat.len()) == pat
}

/// First position `>= i` where `pat` occurs, if any.
pub open spec fn find_sub_at(s: Seq<char>, pat: Seq<char>, i: int) -> Option<int>
    decreases s.len() + 1 - i,
{
    if i < 0 || i + pat.len() > s.len() {
        None
    } else if matches_at(s, pat, i) {
        Some(i)
    } else {
        find_sub_at(s, pat, i + 1)
    }
}

/// First position where `pat` occurs, if any.
pub open spec fn find_sub(s: Seq<char>, pat: Seq<char>) -> Option<int> {
    find_sub_at(s, pat, 0)
}

/// `pat` occurs somewhere in `s`.
pub open spec fn contains_sub(s: Seq<char>, pat: Seq<char>) -> bool {
    find_sub(s, pat) is Some
}

/// `p` is a prefix of `s`.
pub open spec fn starts_with(s: Seq<char>, p: Seq<char>) -> bool {
    p.len() <= s.len() && s.subrange(0, p.len() as int) == p
}

/// Exact character equality of two strings.
pub fn str_eq(a: &str, b: &str) -> (r: bool)
    ensures
        r == (a@ == b@),
{
    let alen = a.unicode_len();
    let blen = b.unicode_len();
    if alen != blen {
        proof {
            assert(a@ != b@);
        }
        return false;
    }
    let mut i: usize = 0;
    while i < alen
        invariant
            alen == a@.len(),
            blen == b@.len(),
            alen == blen,
            i <= alen,
            forall|j: int| 0 <= j < i ==> a@[j] == b@[j],
        decreases alen - i,
    {
        if a.get_char(i) != b.get_char(i) {
            proof {
                assert(a@ != b@);
            }
            return false;
        }
        i = i + 1;
    }
    proof {
        assert(a@ =~= b@);
    }
    true
}

/// Executable first-occurrence search for a character.
pub fn find_char_str(s: &str, c: char) -> (r: Option<usize>)
    ensures
        match r {
            Some(i) => find_char(s@, c) == Some(i as int),
            None => find_char(s@, c) is None,
        },
{
    let n = s.unicode_len();
    let mut i: usize = 0;
    while i < n
        invariant
            n == s@.len(),
            i <= n,
            find_char(s@, c) == find_char_at(s@, c, i as int),
        decreases n - i,
    {
        if s.get_char(i) == c {
            return Some(i);
        }
        i = i + 1;
    }
    None
}

/// Executable last-occurrence search for a character.
pub fn rfind_char_str(s: &str, c: char) -> (r: Option<usize>)
    ensures
        match r {
            Some(i) => rfind_char(s@, c) == Some(i as int),
            None => rfind_char(s@, c) is None,
        },
{
    let n = s.unicode_len();
    proof {
        assert(s@.take(n as int) =~= s@);
    }
    let mut i: usize = n;
    while i > 0
        invariant
            n == s@.len(),
            i <= n,
            rfind_char(s@, c) == rfind_char(s@.take(i as int), c),
        decreases i,
    {
        i = i - 1;
        if s.get_char(i) == c {
            proof {
                let t = s@.take(i + 1);
                assert(t[t.len() - 1] == c);
            }
            return Some(i);
        }
        proof {
            let t = s@.take(i + 1);
            assert(t[t.len() - 1] != c);
            assert(t.drop_last() =~= s@.take(i as int));
        }
    }
    proof {
        assert(s@.take(0) =~= Seq::<char>::empty());
    }
    None
}

/// Executable occurrence test at one position.
pub fn match_at_str(s: &str, pat: &str, i: usize) -> (r: bool)
    ensures
        r == matches_at(s@, pat@, i as int),
{
    let n = s.unicode_len();
    let m = pat.unicode_len();
    if i > n || m > n - i {
        return false;
    }
    let mut k: usize = 0;
    while k < m
        invariant
            n == s@.len(),
            m == pat@.len(),
            i + m <= n,
            k <= m,
            s@.subrange(i as int, i + k) == pat@.take(k as int),
        decreases m - k,
    {
        let sc = s.get_char(i + k);
        let pc = pat.get_char(k);
        if sc != pc {
            proof {
                assert(s@.subrange(i as int, i + m as int)[k as int] == sc);
                assert(pat@[k as int] == pc);
            }
            return false;
        }
        proof {
            assert(s@.subrange(i as int, i + k + 1) =~= s@.subrange(i as int, i + k).push(
                s@[i + k],
            ));
            assert(pat@.take(k + 1) =~= pat@.take(k as int).push(pat@[k as int]));
        }
        k = k + 1;
    }
    proof {
        assert(pat@.take(m as int) =~= pat@);
        assert(s@.subrange(i as int, i + m as int) == pat@);
    }
    true
}

/// Executable first-occurrence search for a pattern, from position `from`.
pub fn find_sub_str_at(s: &str, pat: &str, from: usize) -> (r: Option<usize>)
    ensures
        match r {
            Some(i) => find_sub_at(s@, pat@, from as int) == Some(i as int),
            None => find_sub_at(s@, pat@, from as int) is None,
        },
{
    let n = s.unicode_len();
    let m = pat.unicode_len();
    if m > n || from > n {
        return None;
    }
    if m == 0 {
        proof {
            assert(s@.subrange(from as int, from as int) =~= pat@);
        }
        return Some(from);
    }
    let mut i: usize = from;
    while i <= n - m
        invariant
            n == s@.len(),
            m == pat@.len(),
            1 <= m <= n,
            from <= i <= n,
            find_sub_at(s@, pat@, from as int) == find_sub_at(s@, pat@, i as int),
        decreases n - i,
    {
        if match_at_str(s, pat, i) {
            return Some(i);
        }
        i = i + 1;
    }
    None
}

/// Executable first-occurrence search for a pattern.
pub fn find_sub_str(s: &str, pat: &str) -> (r: Option<usize>)
    ensures
        match r {
            Some(i) => find_sub(s@, pat@) == Some(i as int),
            None => find_sub(s@, pat@) is None,
        },
{
    find_sub_str_at(s, pat, 0)
}

/// Executable substring test.
pub fn contains_str(s: &str, pat: &str) -> (r: bool)
    ensures
        r == contains_sub(s@, pat@),
{
    find_sub_str(s, pat).is_some()
}

/// Executable prefix test.
pub fn starts_with_str(s: &str, p: &str) -> (r: bool)
    ensures
        r == starts_with(s@, p@),
{
    let n = s.unicode_len();
    let m = p.unicode_len();
    if m > n {
        return false;
    }
    let mut k: usize = 0;
    while k < m
        invariant
            n == s@.len(),
            m == p@.len(),
            m <= n,
            k <= m,
            s@.subrange(0, k as int) =~= p@.take(k as int),
        decreases m - k,
    {
        let sc = s.get_char(k);
        let pc = p.get_char(k);
        proof {
            assert(s@.subrange(0, k + 1) =~= s@.subrange(0, k as int).push(s@[k as int]));
            assert(p@.take(k + 1) =~= p@.take(k as int).push(p@[k as int]));
        }
        if sc != pc {
            proof {
                assert(s@.subrange(0, k + 1)[k as int] == sc);
                assert(p@.take(k + 1)[k as int] == pc);
            }
            return false;
        }
        k = k + 1;
    }
    proof {
        assert(p@.take(m as int) =~= p@);
    }
    true
}

// ---------------------------------------------------------------------------
// Trimming

/// First position `>= i` holding a non-whitespace character, or the length.
pub open spec fn skip_ws(s: Seq<char>, i: int) -> int
    decreases s.len() + 1 - i,
{
    if i < 0 || i >= s.len() {
        s.len() as int
    } else if is_ws(s[i]) {
        skip_ws(s, i + 1)
    } else {
        i
    }
}

/// One past the last non-whitespace character, or 0.
pub open spec fn end_non_ws(s: Seq<char>) -> int
    decreases s.len(),
{
    if s.len() == 0 {
        0
    } else if is_ws(s[s.len() - 1]) {
        end_non_ws(s.drop_last())
    } else {
        s.len() as int
    }
}

/// `s` with leading and trailing whitespace removed.
pub open spec fn trim_spec(s: Seq<char>) -> Seq<char> {
    if skip_ws(s, 0) < end_non_ws(s) {
        s.subrange(skip_ws(s, 0), end_non_ws(s))
    } else {
        Seq::empty()
    }
}

/// First non-whitespace position, executable.
fn skip_ws_exec(s: &str, n: usize) -> (a: usize)
    requires
        n == s@.len(),
    ensures
        a as int == skip_ws(s@, 0),
        a <= n,
{
    let mut a: usize = 0;
    while a < n
        invariant
            n == s@.len(),
            a <= n,
            skip_ws(s@, 0) == skip_ws(s@, a as int),
        decreases n - a,
    {
        if !ws_char(s.get_char(a)) {
            return a;
        }
        a = a + 1;
    }
    a
}

/// One past the last non-whitespace position, executable.
fn end_non_ws_exec(s: &str, n: usize) -> (b: usize)
    requires
        n == s@.len(),
    ensures
        b as int == end_non_ws(s@),
        b <= n,
{
    proof {
        assert(s@.take(n as int) =~= s@);
    }
    let mut b: usize = n;
    while b > 0
        invariant
            n == s@.len(),
            b <= n,
            end_non_ws(s@) == end_non_ws(s@.take(b as int)),
        decreases b,
    {
        let t0 = Ghost(s@.take(b as int));
        if !ws_char(s.get_char(b - 1)) {
            proof {
                assert(t0@[t0@.len() - 1] == s@[b - 1]);
            }
            return b;
        }
        proof {
            assert(t0@[t0@.len() - 1] == s@[b - 1]);
            assert(t0@.drop_last() =~= s@.take(b - 1));
        }
        b = b - 1;
    }
    proof {
        assert(end_non_ws(s@.take(0)) == 0);
    }
    b
}

/// Executable trim, equal to `trim_spec`.
pub fn trim_str<'a>(s: &'a str) -> (r: &'a str)
    ensures
        r@ == trim_spec(s@),
{
    let n = s.unicode_len();
    let a = skip_ws_exec(s, n);
    let b = end_non_ws_exec(s, n);
    if a < b {
        s.substring_char(a, b)
    } else {
        let r = s.substring_char(0, 0);
        proof {
            assert(r@ =~= Seq::<char>::empty());
        }
        r
    }
}

// ---------------------------------------------------------------------------
// Decimal numbers

/// All characters are ASCII digits.
pub open spec fn all_digits(s: Seq<char>) -> bool {
    forall|i: int| 0 <= i < s.len() ==> is_digit(#[trigger] s[i])
}

/// Numeric value of a digit string, most significant digit first.
pub open spec fn num_val(s: Seq<char>) -> nat
    decreases s.len(),
{
    if s.len() == 0 {
        0
    } else {
        num_val(s.drop_last()) * 10 + digit_val(s.last())
    }
}

/// What `parse_u64` returns: the value of a non-empty all-digit string
/// when it fits in a `u64`.
pub open spec fn parse_u64_spec(s: Seq<char>) -> Option<u64> {
    if s.len() > 0 && all_digits(s) && num_val(s) <= u64::MAX {
        Some(num_val(s) as u64)
    } else {
        None
    }
}

/// What `parse_u32` returns.
pub open spec fn parse_u32_spec(s: Seq<char>) -> Option<u32> {
    if s.len() > 0 && all_digits(s) && num_val(s) <= u32::MAX {
        Some(num_val(s) as u32)
    } else {
        None
    }
}

/// The numeric value never shrinks as digits are appended.
proof fn lemma_num_val_take_mono(s: Seq<char>, i: int)
    requires
        0 <= i <= s.len(),
    ensures
        num_val(s.take(i)) <= num_val(s),
    decreases s.len() - i,
{
    if i < s.len() {
        lemma_num_val_take_mono(s, i + 1);
        assert(s.take(i + 1).drop_last() =~= s.take(i));
        assert(num_val(s.take(i + 1)) == num_val(s.take(i)) * 10 + digit_val(s[i]));
    } else {
        assert(s.take(i) =~= s);
    }
}

/// Parses a non-empty, all-digit decimal string into a `u64`.
pub fn parse_u64(s: &str) -> (r: Option<u64>)
    ensures
        r == parse_u64_spec(s@),
{
    let n = s.unicode_len();
    if n == 0 {
        return None;
    }
    let mut acc: u64 = 0;
    let mut i: usize = 0;
    while i < n
        invariant
            n == s@.len(),
            i <= n,
            all_digits(s@.take(i as int)),
            acc == num_val(s@.take(i as int)),
        decreases n - i,
    {
        let c = s.get_char(i);
        if !digit_char(c) {
            return None;
        }
        let d: u64 = (c as u32 - '0' as u32) as u64;
        proof {
            assert(s@.take(i + 1).drop_last() =~= s@.take(i as int));
            assert(s@.take(i + 1).last() == s@[i as int]);
        }
        if acc > u64::MAX / 10 {
            proof {
                lemma_num_val_take_mono(s@, i + 1);
            }
            return None;
        }
        let acc10 = acc * 10;
        if d > u64::MAX - acc10 {
            proof {
                lemma_num_val_take_mono(s@, i + 1);
            }
            return None;
        }
        acc = acc10 + d;
        i = i + 1;
    }
    proof {
        assert(s@.take(n as int) =~= s@);
    }
    Some(acc)
}

/// Parses a non-empty, all-digit decimal string into a `u32`.
pub fn parse_u32(s: &str) -> (r: Option<u32>)
    ensures
        r == parse_u32_spec(s@),
{
    match parse_u64(s) {
        Some(v) => {
            if v <= u32::MAX as u64 {
                Some(v as u32)
            } else {
                None
            }
        },
        None => None,
    }
}

/// The digit character for a value below ten.
pub open spec fn digit_of(d: nat) -> char {
    if d == 0 {
        '0'
    } else if d == 1 {
        '1'
    } else if d == 2 {
        '2'
    } else if d == 3 {
        '3'
    } else if d == 4 {
        '4'
    } else if d == 5 {
        '5'
    } else if d == 6 {
        '6'
    } else if d == 7 {
        '7'
    } else if d == 8 {
        '8'
    } else {
        '9'
    }
}

/// Decimal representation of `n`, most significant digit first, no leading
/// zeros (except for zero itself).
pub open spec fn dec_digits(n: nat) -> Seq<char>
    decreases n,
{
    if n < 10 {
        seq![digit_of(n)]
    } else {
        dec_digits(n / 10).push(digit_of(n % 10))
    }
}

fn digit_char_of(d: u64) -> (c: char)
    requires
        d < 10,
    ensures
        c == digit_of(d as nat),
{
    if d == 0 {
        '0'
    } else if d == 1 {
        '1'
    } else if d == 2 {
        '2'
    } else if d == 3 {
        '3'
    } else if d == 4 {
        '4'
    } else if d == 5 {
        '5'
    } else if d == 6 {
        '6'
    } else if d == 7 {
        '7'
    } else if d == 8 {
        '8'
    } else {
        '9'
    }
}

/// Appends the decimal representation of `n`.
pub fn push_dec(n: u64, out: &mut String)
    ensures
        final(out)@ == old(out)@ + dec_digits(n as nat),
    decreases n,
{
    if n < 10 {
        push_char(out, digit_char_of(n));
        proof {
            assert(old(out)@.push(digit_of(n as nat)) =~= old(out)@ + dec_digits(n as nat));
        }
    } else {
        push_dec(n / 10, out);
        push_char(out, digit_char_of(n % 10));
        proof {
            assert((old(out)@ + dec_digits((n / 10) as nat)).push(digit_of((n % 10) as nat))
                =~= old(out)@ + dec_digits(n as nat));
        }
    }
}

/// The decimal representation of `n` as a fresh string.
pub fn u64_to_dec(n: u64) -> (r: String)
    ensures
        r@ == dec_digits(n as nat),
{
    let mut out = String::new();
    push_dec(n, &mut out);
    proof {
        assert(Seq::<char>::empty() + dec_digits(n as nat) =~= dec_digits(n as nat));
    }
    out
}

// ---------------------------------------------------------------------------
// Trusted standard-library wrappers

/// What `str::to_lowercase` returns; it depends on the characters alone.
pub uninterp spec fn lower_of(s: Seq<char>) -> Seq<char>;

/// What `str::to_uppercase` returns; it depends on the characters alone.
pub uninterp spec fn upper_of(s: Seq<char>) -> Seq<char>;

/// Relies on str::to_lowercase: Unicode lowercase of the characters,
/// a function of the input characters alone; empty input stays empty.
#[verifier::external_body]
pub fn to_lower(s: &str) -> (r: String)
    ensures
        r@ == lower_of(s@),
        s@.len() == 0 ==> r@.len() == 0,
{
    s.to_lowercase()
}

/// Relies on str::to_uppercase: Unicode uppercase of the characters,
/// a function of the input characters alone; empty input stays empty.
#[verifier::external_body]
pub fn to_upper(s: &str) -> (r: String)
    ensures
        r@ == upper_of(s@),
        s@.len() == 0 ==> r@.len() == 0,
{
    s.to_uppercase()
}

/// Relies on String::push: appends exactly one character.
#[verifier::external_body]
pub fn push_char(s: &mut String, c: char)
    ensures
        final(s)@ == old(s)@.push(c),
{
    s.push(c)
}

/// Relies on String::pop: removes and returns the last character, if any.
#[verifier::external_body]
pub fn pop_char(s: &mut String) -> (r: Option<char>)
    ensures
        old(s)@.len() == 0 ==> final(s)@ == old(s)@ && r is None,
        old(s)@.len() > 0 ==> final(s)@ == old(s)@.drop_last() && r == Some(
            old(s)@.last(),
        ),
{
    s.pop()
}

// ---------------------------------------------------------------------------
// Tokenizing and line splitting

/// Whitespace-separated tokens of `s`, scanning from position `i` with the
/// partial token `cur` already read.
pub open spec fn tok_scan(s: Seq<char>, i: int, cur: Seq<char>) -> Seq<Seq<char>>
    decreases s.len() + 1 - i,
{
    if i < 0 || i > s.len() {
        Seq::empty()
    } else if i == s.len() {
        if cur.len() > 0 {
            seq![cur]
        } else {
            Seq::empty()
        }
    } else if is_ws(s[i]) {
        if cur.len() > 0 {
            seq![cur] + tok_scan(s, i + 1, Seq::empty())
        } else {
            tok_scan(s, i + 1, Seq::empty())
        }
    } else {
        tok_scan(s, i + 1, cur.push(s[i]))
    }
}

/// The whitespace-separated tokens of `s`, in order.
pub open spec fn tokens(s: Seq<char>) -> Seq<Seq<char>> {
    tok_scan(s, 0, Seq::empty())
}

/// Splits on whitespace; the result holds the tokens of `s` in order.
pub fn split_ws(s: &str) -> (r: Vec<String>)
    ensures
        r.deep_view() == tokens(s@),
{
    let n = s.unicode_len();
    let mut out: Vec<String> = Vec::new();
    proof {
        assert(out.deep_view() =~= Seq::<Seq<char>>::empty());
        assert(s@.subrange(0, 0) =~= Seq::<char>::empty());
        assert(Seq::<Seq<char>>::empty() + tok_scan(s@, 0, Seq::<char>::empty()) =~= tok_scan(
            s@,
            0,
            Seq::<char>::empty(),
        ));
    }
    let mut i: usize = 0;
    let mut j: usize = 0;
    while i < n
        invariant
            n == s@.len(),
            j <= i <= n,
            tokens(s@) == out.deep_view() + tok_scan(s@, i as int, s@.subrange(j as int, i as int)),
        decreases n - i,
    {
        let c = s.get_char(i);
        if ws_char(c) {
            if j < i {
                let tok = s.substring_char(j, i).to_owned();
                proof {
                    assert((out@.push(tok)).map_values(|t: String| t@) =~= out.deep_view().push(
                        s@.subrange(j as int, i as int),
                    ));
                    assert(out.deep_view().push(s@.subrange(j as int, i as int))
                        + tok_scan(s@, i + 1, Seq::<char>::empty())
                        =~= out.deep_view() + (seq![s@.subrange(j as int, i as int)] + tok_scan(
                        s@,
                        i + 1,
                        Seq::<char>::empty(),
                    )));
                }
                out.push(tok);
            } else {
                proof {
                    assert(s@.subrange(j as int, i as int).len() == 0);
                }
            }
            j = i + 1;
            proof {
                assert(s@.subrange(i + 1, i + 1) =~= Seq::<char>::empty());
            }
        } else {
            proof {
                assert(s@.subrange(j as int, i + 1) =~= s@.subrange(j as int, i as int).push(
                    s@[i as int],
                ));
            }
        }
        i = i + 1;
    }
    if j < n {
        let tok = s.substring_char(j, n).to_owned();
        proof {
            assert((out@.push(tok)).map_values(|t: String| t@) =~= out.deep_view().push(
                s@.subrange(j as int, n as int),
            ));
            assert(out.deep_view().push(s@.subrange(j as int, n as int)) =~= out.deep_view() + seq![
                s@.subrange(j as int, n as int),
            ]);
        }
        out.push(tok);
    }
    out
}

/// `t` with one trailing carriage return removed.
pub open spec fn strip_cr(t: Seq<char>) -> Seq<char> {
    if t.len() > 0 && t.last() == '\r' {
        t.drop_last()
    } else {
        t
    }
}

/// The lines of `s`, scanning from position `i` with the partial line `cur`
/// already read.  A line ends at a newline; a carriage return before the
/// newline is dropped.  Text after the last newline forms a final line only
/// if it is non-empty.
pub open spec fn line_scan(s: Seq<char>, i: int, cur: Seq<char>) -> Seq<Seq<char>>
    decreases s.len() + 1 - i,
{
    if i < 0 || i > s.len() {
        Seq::empty()
    } else if i == s.len() {
        if cur.len() > 0 {
            seq![cur]
        } else {
            Seq::empty()
        }
    } else if s[i] == '\n' {
        seq![strip_cr(cur)] + line_scan(s, i + 1, Seq::empty())
    } else {
        line_scan(s, i + 1, cur.push(s[i]))
    }
}

/// The lines of `s`.
pub open spec fn lines_of(s: Seq<char>) -> Seq<Seq<char>> {
    line_scan(s, 0, Seq::empty())
}

/// Splits into lines; the result holds the lines of `s` in order.
pub fn split_lines(s: &str) -> (r: Vec<String>)
    ensures
        r.deep_view() == lines_of(s@),
{
    let n = s.unicode_len();
    let mut out: Vec<String> = Vec::new();
    proof {
        assert(out.deep_view() =~= Seq::<Seq<char>>::empty());
        assert(s@.subrange(0, 0) =~= Seq::<char>::empty());
        assert(Seq::<Seq<char>>::empty() + line_scan(s@, 0, Seq::<char>::empty()) =~= line_scan(
            s@,
            0,
            Seq::<char>::empty(),
        ));
    }
    let mut i: usize = 0;
    let mut j: usize = 0;
    while i < n
        invariant
            n == s@.len(),
            j <= i <= n,
            lines_of(s@) == out.deep_view() + line_scan(
                s@,
                i as int,
                s@.subrange(j as int, i as int),
            ),
        decreases n - i,
    {
        let c = s.get_char(i);
        if c == '\n' {
            let end = if i > j && s.get_char(i - 1) == '\r' {
                proof {
                    let cur = s@.subrange(j as int, i as int);
                    assert(cur.last() == s@[i - 1]);
                    assert(cur.drop_last() =~= s@.subrange(j as int, i - 1));
                }
                i - 1
            } else {
                proof {
                    let cur = s@.subrange(j as int, i as int);
                    if cur.len() > 0 {
                        assert(cur.last() == s@[i - 1]);
                    }
                    assert(strip_cr(cur) == cur);
                }
                i
            };
            let ln = s.substring_char(j, end).to_owned();
            proof {
                assert((out@.push(ln)).map_values(|t: String| t@) =~= out.deep_view().push(
                    strip_cr(s@.subrange(j as int, i as int)),
                ));
                assert(out.deep_view().push(strip_cr(s@.subrange(j as int, i as int))) + line_scan(
                    s@,
                    i + 1,
                    Seq::<char>::empty(),
                ) =~= out.deep_view() + (seq![strip_cr(s@.subrange(j as int, i as int))]
                    + line_scan(s@, i + 1, Seq::<char>::empty())));
            }
            out.push(ln);
            j = i + 1;
            proof {
                assert(s@.subrange(i + 1, i + 1) =~= Seq::<char>::empty());
            }
        } else {
            proof {
                assert(s@.subrange(j as int, i + 1) =~= s@.subrange(j as int, i as int).push(
                    s@[i as int],
                ));
            }
        }
        i = i + 1;
    }
    if j < n {
        let ln = s.substring_char(j, n).to_owned();
        proof {
            assert((out@.push(ln)).map_values(|t: String| t@) =~= out.deep_view().push(
                s@.subrange(j as int, n as int),
            ));
            assert(out.deep_view().push(s@.subrange(j as int, n as int)) =~= out.deep_view()
                + seq![s@.subrange(j as int, n as int)]);
        }
        out.push(ln);
    }
    out
}

// ---------------------------------------------------------------------------
// Lexicographic comparison

/// `a` sorts at or before `b`, comparing characters by code point.  This is
/// the order of the standard byte-wise string comparison, since UTF-8
/// preserves code-point order.
pub open spec fn lex_le(a: Seq<char>, b: Seq<char>) -> bool
    decreases a.len(),
{
    if a.len() == 0 {
        true
    } else if b.len() == 0 {
        false
    } else if (a[0] as u32) < (b[0] as u32) {
        true
    } else if (a[0] as u32) > (b[0] as u32) {
        false
    } else {
        lex_le(a.drop_first(), b.drop_first())
    }
}

/// The lexicographic order is total.
pub proof fn lemma_lex_total(a: Seq<char>, b: Seq<char>)
    ensures
        lex_le(a, b) || lex_le(b, a),
    decreases a.len(),
{
    if a.len() > 0 && b.len() > 0 && (a[0] as u32) == (b[0] as u32) {
        lemma_lex_total(a.drop_first(), b.drop_first());
    }
}

/// The lexicographic order is transitive.
pub proof fn lemma_lex_trans(a: Seq<char>, b: Seq<char>, c: Seq<char>)
    requires
        lex_le(a, b),
        lex_le(b, c),
    ensures
        lex_le(a, c),
    decreases a.len(),
{
    if a.len() > 0 && b.len() > 0 && c.len() > 0 {
        if (a[0] as u32) == (b[0] as u32) && (b[0] as u32) == (c[0] as u32) {
            lemma_lex_trans(a.drop_first(), b.drop_first(), c.drop_first());
        }
    }
}

/// Executable lexicographic comparison, equal to `lex_le`.
pub fn lex_le_str(a: &str, b: &str) -> (r: bool)
    ensures
        r == lex_le(a@, b@),
{
    let an = a.unicode_len();
    let bn = b.unicode_len();
    proof {
        assert(a@.skip(0) =~= a@);
        assert(b@.skip(0) =~= b@);
    }
    let mut i: usize = 0;
    while i < an && i < bn
        invariant
            an == a@.len(),
            bn == b@.len(),
            i <= an,
            i <= bn,
            lex_le(a@, b@) == lex_le(a@.skip(i as int), b@.skip(i as int)),
        decreases an - i,
    {
        let ca = a.get_char(i);
        let cb = b.get_char(i);
        proof {
            assert(a@.skip(i as int)[0] == a@[i as int]);
            assert(b@.skip(i as int)[0] == b@[i as int]);
        }
        if (ca as u32) < (cb as u32) {
            return true;
        }
        if (ca as u32) > (cb as u32) {
            return false;
        }
        proof {
            assert(a@.skip(i as int).drop_first() =~= a@.skip(i + 1));
            assert(b@.skip(i as int).drop_first() =~= b@.skip(i + 1));
        }
        i = i + 1;
    }
    proof {
        if i >= an {
            assert(a@.skip(i as int).len() == 0);
        } else {
            assert(b@.skip(i as int).len() == 0);
            assert(a@.skip(i as int).len() > 0);
        }
    }
    i >= an
}

/// Last position holding a whitespace character, if any.
pub open spec fn rfind_ws(s: Seq<char>) -> Option<int>
    decreases s.len(),
{
    if s.len() == 0 {
        None
    } else if is_ws(s[s.len() - 1]) {
        Some(s.len() - 1)
    } else {
        rfind_ws(s.drop_last())
    }
}

/// Executable last-whitespace search.
pub fn rfind_ws_str(s: &str) -> (r: Option<usize>)
    ensures
        match r {
            Some(i) => rfind_ws(s@) == Some(i as int),
            None => rfind_ws(s@) is None,
        },
{
    let n = s.unicode_len();
    proof {
        assert(s@.take(n as int) =~= s@);
    }
    let mut i: usize = n;
    while i > 0
        invariant
            n == s@.len(),
            i <= n,
            rfind_ws(s@) == rfind_ws(s@.take(i as int)),
        decreases i,
    {
        i = i - 1;
        if ws_char(s.get_char(i)) {
            proof {
                let t = s@.take(i + 1);
                assert(is_ws(t[t.len() - 1]));
            }
            return Some(i);
        }
        proof {
            let t = s@.take(i + 1);
            assert(!is_ws(t[t.len() - 1]));
            assert(t.drop_last() =~= s@.take(i as int));
        }
    }
    proof {
        assert(s@.take(0) =~= Seq::<char>::empty());
    }
    None
}

/// First position `>= i` holding a non-digit character, if any.
pub open spec fn find_non_digit_at(s: Seq<char>, i: int) -> Option<int>
    decreases s.len() - i,
{
    if i < 0 || i >= s.len() {
        None
    } else if !is_digit(s[i]) {
        Some(i)
    } else {
        find_non_digit_at(s, i + 1)
    }
}

/// First position holding a non-digit character, if any.
pub open spec fn find_non_digit(s: Seq<char>) -> Option<int> {
    find_non_digit_at(s, 0)
}

/// Executable first-non-digit search.
pub fn find_non_digit_str(s: &str) -> (r: Option<usize>)
    ensures
        match r {
            Some(i) => find_non_digit(s@) == Some(i as int),
            None => find_non_digit(s@) is None,
        },
{
    let n = s.unicode_len();
    let mut i: usize = 0;
    while i < n
        invariant
            n == s@.len(),
            i <= n,
            find_non_digit(s@) == find_non_digit_at(s@, i as int),
        decreases n - i,
    {
        if !digit_char(s.get_char(i)) {
            return Some(i);
        }
        i = i + 1;
    }
    None
}

/// A found non-digit lies inside the string.
pub proof fn lemma_find_non_digit_range(s: Seq<char>, i: int)
    requires
        find_non_digit_at(s, i) is Some,
        0 <= i,
    ensures
        i <= find_non_digit_at(s, i)->0 < s.len(),
    decreases s.len() - i,
{
    if i < s.len() && is_digit(s[i]) {
        lemma_find_non_digit_range(s, i + 1);
    }
}

/// A found character lies inside the string, at or after the start.
pub proof fn lemma_find_char_at_range(s: Seq<char>, c: char, i: int)
    requires
        find_char_at(s, c, i) is Some,
        0 <= i,
    ensures
        i <= find_char_at(s, c, i)->0 < s.len(),
        s[find_char_at(s, c, i)->0] == c,
    decreases s.len() - i,
{
    if i < s.len() && s[i] != c {
        lemma_find_char_at_range(s, c, i + 1);
    }
}

/// A found character lies inside the string.
pub proof fn lemma_find_char_bounds(s: Seq<char>, c: char)
    requires
        find_char(s, c) is Some,
    ensures
        0 <= find_char(s, c)->0 < s.len(),
        s[find_char(s, c)->0] == c,
{
    lemma_find_char_at_range(s, c, 0);
}

/// A found occurrence fits inside the string, at or after the start.
pub proof fn lemma_find_sub_at_range(s: Seq<char>, pat: Seq<char>, i: int)
    requires
        find_sub_at(s, pat, i) is Some,
        0 <= i,
    ensures
        i <= find_sub_at(s, pat, i)->0,
        find_sub_at(s, pat, i)->0 + pat.len() <= s.len(),
    decreases s.len() + 1 - i,
{
    if i + pat.len() <= s.len() && !matches_at(s, pat, i) {
        lemma_find_sub_at_range(s, pat, i + 1);
    }
}

/// A found occurrence fits inside the string.
pub proof fn lemma_find_sub_bounds(s: Seq<char>, pat: Seq<char>)
    requires
        find_sub(s, pat) is Some,
    ensures
        0 <= find_sub(s, pat)->0,
        find_sub(s, pat)->0 + pat.len() <= s.len(),
{
    lemma_find_sub_at_range(s, pat, 0);
}

/// A found last occurrence lies inside the string.
pub proof fn lemma_rfind_char_bounds(s: Seq<char>, c: char)
    requires
        rfind_char(s, c) is Some,
    ensures
        0 <= rfind_char(s, c)->0 < s.len(),
    decreases s.len(),
{
    if s.len() > 0 && s[s.len() - 1] != c {
        lemma_rfind_char_bounds(s.drop_last(), c);
    }
}

/// A found last whitespace lies inside the string.
pub proof fn lemma_rfind_ws_bounds(s: Seq<char>)
    requires
        rfind_ws(s) is Some,
    ensures
        0 <= rfind_ws(s)->0 < s.len(),
    decreases s.len(),
{
    if s.len() > 0 && !is_ws(s[s.len() - 1]) {
        lemma_rfind_ws_bounds(s.drop_last());
    }
}

} // verus!
