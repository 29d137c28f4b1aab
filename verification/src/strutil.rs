//! Sequence-level string primitives: substring search, replacement,
//! splitting, lexicographic order and decimal parsing.
//!
//! All executable functions here carry exact contracts over the `Seq<char>`
//! views of their arguments; the spec functions are the mathematical model
//! that the rest of the crate states its contracts with.

use vstd::prelude::*;

verus! {

/// `p` occurs as a contiguous slice of `s` starting at index `i`.
pub open spec fn match_at(s: Seq<char>, p: Seq<char>, i: int) -> bool {
    &&& 0 <= i
    &&& i + p.len() <= s.len()
    &&& s.subrange(i, i + p.len() as int) == p
}

/// `p` occurs somewhere in `s`.
pub open spec fn contains_seq(s: Seq<char>, p: Seq<char>) -> bool {
    exists|i: int| match_at(s, p, i)
}

/// Index of the first occurrence of `p` in `s` at or after `from`,
/// if there is one.
pub open spec fn find_from(s: Seq<char>, p: Seq<char>, from: int) -> Option<int>
    decreases s.len() - from,
    via find_from_dec
{
    if from + p.len() > s.len() {
        None
    } else if match_at(s, p, from) {
        Some(from)
    } else {
        find_from(s, p, from + 1)
    }
}

#[via_fn]
proof fn find_from_dec(s: Seq<char>, p: Seq<char>, from: int) {
    lemma_empty_pattern_matches(s, p, from);
}

/// An empty pattern matches wherever it fits; stated so that the
/// non-matching branch of `find_from` is known to shorten the search.
proof fn lemma_empty_pattern_matches(s: Seq<char>, p: Seq<char>, from: int)
    ensures
        p.len() == 0 && 0 <= from && from <= s.len() ==> match_at(s, p, from),
{
    if p.len() == 0 && 0 <= from && from <= s.len() {
        assert(s.subrange(from, from) =~= p);
    }
}

/// Index of the first occurrence of `p` in `s`, if there is one.
pub open spec fn find_sub(s: Seq<char>, p: Seq<char>) -> Option<int> {
    find_from(s, p, 0)
}

/// What `find_from` returns: the first match at or after `from`, or a
/// guarantee that there is none.
pub proof fn lemma_find_from(s: Seq<char>, p: Seq<char>, from: int)
    ensures
        match find_from(s, p, from) {
            Some(i) => from <= i && match_at(s, p, i) && forall|j: int|
                from <= j < i ==> !match_at(s, p, j),
            None => forall|j: int| from <= j ==> !match_at(s, p, j),
        },
    decreases s.len() - from,
{
    lemma_empty_pattern_matches(s, p, from);
    if from + p.len() > s.len() {
    } else if match_at(s, p, from) {
    } else {
        lemma_find_from(s, p, from + 1);
    }
}

/// A match at `i` with none before it is what `find_from` returns.
pub proof fn lemma_find_first(s: Seq<char>, p: Seq<char>, from: int, i: int)
    requires
        from <= i,
        match_at(s, p, i),
        forall|j: int| from <= j < i ==> !match_at(s, p, j),
    ensures
        find_from(s, p, from) == Some(i),
{
    lemma_find_from(s, p, from);
    match find_from(s, p, from) {
        Some(i2) => {
            if i2 < i {
                assert(!match_at(s, p, i2));
            }
            if i2 > i {
                assert(!match_at(s, p, i));
            }
        },
        None => {
            assert(!match_at(s, p, i));
        },
    }
}

/// `p` occurs in `s` exactly when `find_sub` finds an index.
pub proof fn lemma_find_sub_contains(s: Seq<char>, p: Seq<char>)
    ensures
        contains_seq(s, p) <==> find_sub(s, p) is Some,
{
    lemma_find_from(s, p, 0);
    if find_sub(s, p) is Some {
        let i = find_sub(s, p)->Some_0;
        assert(match_at(s, p, i));
    }
    if contains_seq(s, p) {
        let i = choose|i: int| match_at(s, p, i);
        assert(i >= 0);
    }
}

/// `p` occurs as a slice of `s` starting at `i`.
pub fn match_str_at(s: &str, p: &str, i: usize) -> (r: bool)
    ensures
        r == match_at(s@, p@, i as int),
{
    let n = s.unicode_len();
    let m = p.unicode_len();
    if i > n || m > n - i {
        return false;
    }
    let mut j: usize = 0;
    while j < m
        invariant
            i + m <= n,
            j <= m,
            n == s@.len(),
            m == p@.len(),
            forall|k: int| 0 <= k < j ==> s@[i + k] == p@[k],
        decreases m - j,
    {
        if s.get_char(i + j) != p.get_char(j) {
            proof {
                assert(s@.subrange(i as int, i + m as int)[j as int] == s@[i + j]);
            }
            return false;
        }
        j += 1;
    }
    proof {
        assert(s@.subrange(i as int, i + m as int) =~= p@);
    }
    true
}

/// First occurrence of `p` in `s` at or after `from`.
pub fn find_str(s: &str, p: &str, from: usize) -> (r: Option<usize>)
    ensures
        match r {
            Some(i) => find_from(s@, p@, from as int) == Some(i as int) && match_at(
                s@,
                p@,
                i as int,
            ),
            None => find_from(s@, p@, from as int) is None,
        },
{
    let n = s.unicode_len();
    let m = p.unicode_len();
    let mut i = from;
    loop
        invariant
            from <= i,
            n == s@.len(),
            m == p@.len(),
            find_from(s@, p@, from as int) == find_from(s@, p@, i as int),
        decreases n + 1 - i,
    {
        if i > n || m > n - i {
            return None;
        }
        if match_str_at(s, p, i) {
            return Some(i);
        }
        proof {
            lemma_empty_pattern_matches(s@, p@, i as int);
            assert(find_from(s@, p@, i as int) == find_from(s@, p@, i + 1));
        }
        i += 1;
    }
}

/// `p` occurs somewhere in `s`.
pub fn contains_str(s: &str, p: &str) -> (r: bool)
    ensures
        r == contains_seq(s@, p@),
{
    proof {
        lemma_find_sub_contains(s@, p@);
    }
    match find_str(s, p, 0) {
        Some(_) => true,
        None => false,
    }
}

/// `s` with every (leftmost, non-overlapping) occurrence of `pat` replaced
/// by `to`.
pub open spec fn replace_all(s: Seq<char>, pat: Seq<char>, to: Seq<char>) -> Seq<char>
    decreases s.len(),
    when pat.len() > 0
    via replace_all_dec
{
    match find_sub(s, pat) {
        None => s,
        Some(i) => s.subrange(0, i) + to + replace_all(
            s.subrange(i + pat.len() as int, s.len() as int),
            pat,
            to,
        ),
    }
}

#[via_fn]
proof fn replace_all_dec(s: Seq<char>, pat: Seq<char>, to: Seq<char>) {
    lemma_find_from(s, pat, 0);
}

/// Executable form of `replace_all`.
pub fn replace_all_str(s: &str, pat: &str, to: &str) -> (r: String)
    requires
        pat@.len() > 0,
    ensures
        r@ == replace_all(s@, pat@, to@),
    decreases s@.len(),
{
    proof {
        lemma_find_from(s@, pat@, 0);
    }
    let n = s.unicode_len();
    match find_str(s, pat, 0) {
        None => s.to_owned(),
        Some(i) => {
            let plen = pat.unicode_len();
            let mut out = String::from_str(s.substring_char(0, i));
            out.append(to);
            let rest = s.substring_char(i + plen, n);
            let tail = replace_all_str(rest, pat, to);
            out.append(tail.as_str());
            proof {
                assert(out@ =~= replace_all(s@, pat@, to@));
            }
            out
        },
    }
}

/// The pieces of `s` between (leftmost, non-overlapping) occurrences of
/// `pat`; a sequence of one piece when `pat` does not occur.
pub open spec fn split_seq(s: Seq<char>, pat: Seq<char>) -> Seq<Seq<char>>
    decreases s.len(),
    when pat.len() > 0
    via split_seq_dec
{
    match find_sub(s, pat) {
        None => seq![s],
        Some(i) => seq![s.subrange(0, i)] + split_seq(
            s.subrange(i + pat.len() as int, s.len() as int),
            pat,
        ),
    }
}

#[via_fn]
proof fn split_seq_dec(s: Seq<char>, pat: Seq<char>) {
    lemma_find_from(s, pat, 0);
}

/// The views of a sequence of strings.
pub open spec fn views_of(v: Seq<String>) -> Seq<Seq<char>> {
    Seq::new(v.len(), |i: int| v[i]@)
}

/// Executable form of `split_seq`.
pub fn split_str(s: &str, pat: &str) -> (r: Vec<String>)
    requires
        pat@.len() > 0,
    ensures
        views_of(r@) == split_seq(s@, pat@),
    decreases s@.len(),
{
    proof {
        lemma_find_from(s@, pat@, 0);
    }
    let n = s.unicode_len();
    match find_str(s, pat, 0) {
        None => {
            let mut v: Vec<String> = Vec::new();
            v.push(s.to_owned());
            proof {
                assert(views_of(v@) =~= split_seq(s@, pat@));
            }
            v
        },
        Some(i) => {
            let plen = pat.unicode_len();
            let first = String::from_str(s.substring_char(0, i));
            let rest = s.substring_char(i + plen, n);
            let mut v = split_str(rest, pat);
            v.insert(0, first);
            proof {
                assert(views_of(v@) =~= split_seq(s@, pat@));
            }
            v
        },
    }
}

/// `s` up to (not including) the first occurrence of `pat`; all of `s`
/// when `pat` does not occur.
pub open spec fn prefix_before(s: Seq<char>, pat: Seq<char>) -> Seq<char> {
    match find_sub(s, pat) {
        None => s,
        Some(i) => s.subrange(0, i),
    }
}

/// Executable form of `prefix_before`.
pub fn prefix_before_str(s: &str, pat: &str) -> (r: String)
    ensures
        r@ == prefix_before(s@, pat@),
{
    proof {
        lemma_find_from(s@, pat@, 0);
    }
    let n = s.unicode_len();
    match find_str(s, pat, 0) {
        None => s.to_owned(),
        Some(i) => String::from_str(s.substring_char(0, i)),
    }
}

/// Lexicographic order on character sequences by code point; agrees with
/// the ordering of Rust strings, since UTF-8 byte order follows code-point
/// order.
pub open spec fn str_le(a: Seq<char>, b: Seq<char>) -> bool
    decreases a.len(),
{
    if a.len() == 0 {
        true
    } else if b.len() == 0 {
        false
    } else if (a[0] as u32) == (b[0] as u32) {
        str_le(a.skip(1), b.skip(1))
    } else {
        (a[0] as u32) < (b[0] as u32)
    }
}

/// `str_le` is total.
pub proof fn lemma_str_le_total(a: Seq<char>, b: Seq<char>)
    ensures
        str_le(a, b) || str_le(b, a),
    decreases a.len(),
{
    if a.len() > 0 && b.len() > 0 && (a[0] as u32) == (b[0] as u32) {
        lemma_str_le_total(a.skip(1), b.skip(1));
    }
}

/// `str_le` is transitive.
pub proof fn lemma_str_le_trans(a: Seq<char>, b: Seq<char>, c: Seq<char>)
    requires
        str_le(a, b),
        str_le(b, c),
    ensures
        str_le(a, c),
    decreases a.len(),
{
    if a.len() > 0 && b.len() > 0 && c.len() > 0 && (a[0] as u32) == (b[0] as u32) && (
    b[0] as u32) == (c[0] as u32) {
        lemma_str_le_trans(a.skip(1), b.skip(1), c.skip(1));
    }
}

/// Executable form of `str_le`.
pub fn str_le_exec(a: &str, b: &str) -> (r: bool)
    ensures
        r == str_le(a@, b@),
    decreases a@.len(),
{
    let na = a.unicode_len();
    let nb = b.unicode_len();
    if na == 0 {
        true
    } else if nb == 0 {
        false
    } else {
        let ca = a.get_char(0);
        let cb = b.get_char(0);
        if (ca as u32) == (cb as u32) {
            let r = str_le_exec(a.substring_char(1, na), b.substring_char(1, nb));
            proof {
                assert(a@.subrange(1, na as int) =~= a@.skip(1));
                assert(b@.subrange(1, nb as int) =~= b@.skip(1));
            }
            r
        } else {
            (ca as u32) < (cb as u32)
        }
    }
}

/// An ASCII decimal digit.
pub open spec fn is_ascii_digit_char(c: char) -> bool {
    48 <= (c as u32) && (c as u32) <= 57
}

/// Every character of `s` is an ASCII decimal digit.
pub open spec fn all_digits(s: Seq<char>) -> bool {
    forall|i: int| 0 <= i < s.len() ==> is_ascii_digit_char(#[trigger] s[i])
}

/// The value of `s` read as a decimal numeral, most significant digit
/// first.
pub open spec fn dec_val(s: Seq<char>) -> int
    decreases s.len(),
{
    if s.len() == 0 {
        0
    } else {
        dec_val(s.drop_last()) * 10 + ((s.last() as u32) - 48)
    }
}

proof fn lemma_dec_val_nonneg(s: Seq<char>)
    requires
        all_digits(s),
    ensures
        dec_val(s) >= 0,
    decreases s.len(),
{
    if s.len() > 0 {
        assert(all_digits(s.drop_last()));
        lemma_dec_val_nonneg(s.drop_last());
    }
}

/// What parsing a decimal integer returns: an optional sign followed by
/// one or more digits, rejected when the value does not fit in `i32`.
/// This is the behaviour of `i32::from_str` on character sequences.
pub open spec fn parse_i32_spec(s: Seq<char>) -> Option<i32> {
    let neg = s.len() > 0 && s[0] == '-';
    let digits = if s.len() > 0 && (s[0] == '+' || s[0] == '-') {
        s.skip(1)
    } else {
        s
    };
    if digits.len() == 0 || !all_digits(digits) {
        None
    } else {
        let v = if neg {
            -dec_val(digits)
        } else {
            dec_val(digits)
        };
        if -2147483648 <= v && v <= 2147483647 {
            Some(v as i32)
        } else {
            None
        }
    }
}

/// Parses a decimal integer as `i32::from_str` does: an optional `+` or
/// `-` sign, then one or more ASCII digits; `None` on any other shape and
/// on overflow.
pub fn parse_i32(s: &str) -> (r: Option<i32>)
    ensures
        r == parse_i32_spec(s@),
{
    let n = s.unicode_len();
    if n == 0 {
        return None;
    }
    let c0 = s.get_char(0);
    let neg = c0 == '-';
    let start: usize = if c0 == '-' || c0 == '+' {
        1
    } else {
        0
    };
    let ghost digits: Seq<char> = if start == 1 {
        s@.skip(1)
    } else {
        s@
    };
    if n == start {
        return None;
    }
    proof {
        assert(s@.skip(0) =~= s@);
    }
    let mut i = start;
    let mut acc: u64 = 0;
    while i < n
        invariant
            start <= i <= n,
            start <= 1,
            n == s@.len(),
            n > 0,
            neg == (s@[0] == '-'),
            (start == 1) == (s@[0] == '+' || s@[0] == '-'),
            digits == (if s@[0] == '+' || s@[0] == '-' {
                s@.skip(1)
            } else {
                s@
            }),
            digits == s@.skip(start as int),
            forall|k: int| start <= k < i ==> is_ascii_digit_char(#[trigger] s@[k]),
            acc <= 4294967297,
            dec_val(s@.subrange(start as int, i as int)) <= 4294967296 ==> acc == dec_val(
                s@.subrange(start as int, i as int),
            ),
            dec_val(s@.subrange(start as int, i as int)) > 4294967296 ==> acc > 4294967296,
        decreases n - i,
    {
        let c = s.get_char(i);
        let u = c as u32;
        if u < 48 || u > 57 {
            proof {
                assert(digits[i - start] == s@[i as int]);
                assert(!all_digits(digits));
            }
            return None;
        }
        let ghost pre = s@.subrange(start as int, i as int);
        let ghost post = s@.subrange(start as int, i + 1);
        proof {
            assert(post.drop_last() =~= pre);
            assert(post.last() == s@[i as int]);
            assert(all_digits(pre));
            lemma_dec_val_nonneg(pre);
        }
        acc = acc * 10 + ((u - 48) as u64);
        if acc > 4294967296 {
            acc = 4294967297;
        }
        i += 1;
    }
    proof {
        assert(s@.subrange(start as int, n as int) =~= digits);
        assert(all_digits(digits));
        lemma_dec_val_nonneg(digits);
    }
    if neg {
        if acc <= 2147483648 {
            Some((-(acc as i64)) as i32)
        } else {
            None
        }
    } else {
        if acc <= 2147483647 {
            Some(acc as i32)
        } else {
            None
        }
    }
}

/// `a` and `b` are equal up to ASCII letter case.
pub open spec fn chars_eq_ic(a: char, b: char) -> bool {
    ||| (a as u32) == (b as u32)
    ||| ((a as u32) + 32 == (b as u32) && 65 <= (a as u32) && (a as u32) <= 90)
    ||| ((b as u32) + 32 == (a as u32) && 65 <= (b as u32) && (b as u32) <= 90)
}

/// The sequences are equal ignoring ASCII letter case.
pub open spec fn seq_eq_ignore_case(a: Seq<char>, b: Seq<char>) -> bool {
    a.len() == b.len() && forall|i: int| 0 <= i < a.len() ==> chars_eq_ic(#[trigger] a[i], b[i])
}

/// The strings are equal ignoring ASCII letter case.
pub fn eq_ignore_case(a: &str, b: &str) -> (r: bool)
    ensures
        r == seq_eq_ignore_case(a@, b@),
{
    let na = a.unicode_len();
    let nb = b.unicode_len();
    if na != nb {
        return false;
    }
    let mut i: usize = 0;
    while i < na
        invariant
            i <= na,
            na == a@.len(),
            na == b@.len(),
            forall|k: int| 0 <= k < i ==> chars_eq_ic(#[trigger] a@[k], b@[k]),
        decreases na - i,
    {
        let ca = a.get_char(i) as u32;
        let cb = b.get_char(i) as u32;
        let ok = ca == cb || (ca + 32 == cb && 65 <= ca && ca <= 90) || (cb + 32 == ca && 65
            <= cb && cb <= 90);
        if !ok {
            return false;
        }
        i += 1;
    }
    true
}

} // verus!
