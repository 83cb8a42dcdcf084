//! Character-level scanning helpers shared by the parsers.
//!
//! All parsing in this crate works on vectors of `char`, viewed as
//! `Seq<char>`.  This module holds the conversions to and from `String`
//! together with the whitespace predicate that the format uses.

use vstd::prelude::*;
use vstd::string::StrSliceExecFns;

verus! {

/// The whitespace characters the parser recognises: the ASCII spacing set.
pub open spec fn is_space(c: char) -> bool {
    c == ' ' || c == '\t' || c == '\n' || c == '\r' || c == '\u{b}' || c == '\u{c}'
}

/// Runtime test matching [`is_space`].
pub fn is_space_char(c: char) -> (r: bool)
    ensures
        r == is_space(c),
{
    c == ' ' || c == '\t' || c == '\n' || c == '\r' || c == '\u{b}' || c == '\u{c}'
}

/// The characters of a string slice, as a vector.
pub fn to_chars(s: &str) -> (v: Vec<char>)
    ensures
        v@ == s@,
{
    let n = s.unicode_len();
    let mut v: Vec<char> = Vec::new();
    let mut i: usize = 0;
    while i < n
        invariant
            n == s@.len(),
            i <= n,
            v@ == s@.subrange(0, i as int),
        decreases n - i,
    {
        v.push(s.get_char(i));
        i = i + 1;
        proof {
            assert(v@ =~= s@.subrange(0, i as int));
        }
    }
    proof {
        assert(s@.subrange(0, n as int) =~= s@);
    }
    v
}

/// Relies on `String::push`, which appends a single character to the string.
#[verifier::external_body]
fn push_char(s: &mut String, c: char)
    ensures
        final(s)@ == old(s)@.push(c),
{
    s.push(c);
}

/// A string holding exactly the given characters.
pub fn chars_to_string(v: &Vec<char>) -> (s: String)
    ensures
        s@ == v@,
{
    let mut s = String::new();
    let mut i: usize = 0;
    while i < v.len()
        invariant
            i <= v@.len(),
            s@ == v@.subrange(0, i as int),
        decreases v@.len() - i,
    {
        push_char(&mut s, v[i]);
        i = i + 1;
        proof {
            assert(s@ =~= v@.subrange(0, i as int));
        }
    }
    proof {
        assert(v@.subrange(0, v@.len() as int) =~= v@);
    }
    s
}

/// Whether two string slices hold the same characters.
pub fn str_eq(a: &str, b: &str) -> (r: bool)
    ensures
        r == (a@ == b@),
{
    let n = a.unicode_len();
    let m = b.unicode_len();
    if n != m {
        return false;
    }
    let mut i: usize = 0;
    while i < n
        invariant
            n == a@.len() == b@.len(),
            i <= n,
            forall|j: int| 0 <= j < i ==> a@[j] == b@[j],
        decreases n - i,
    {
        if a.get_char(i) != b.get_char(i) {
            return false;
        }
        i = i + 1;
    }
    proof {
        assert(a@ =~= b@);
    }
    true
}

/// A copy of the characters of `v` between `lo` (inclusive) and `hi`
/// (exclusive).
pub fn subvec(v: &Vec<char>, lo: usize, hi: usize) -> (out: Vec<char>)
    requires
        lo <= hi <= v@.len(),
    ensures
        out@ == v@.subrange(lo as int, hi as int),
{
    let mut out: Vec<char> = Vec::new();
    let mut i: usize = lo;
    while i < hi
        invariant
            lo <= i <= hi <= v@.len(),
            out@ == v@.subrange(lo as int, i as int),
        decreases hi - i,
    {
        out.push(v[i]);
        i = i + 1;
        proof {
            assert(out@ =~= v@.subrange(lo as int, i as int));
        }
    }
    out
}

/// The position of the first occurrence of `c` in `s` at or after `i`, or
/// `s.len()` when there is none.
pub open spec fn find_from(s: Seq<char>, i: int, c: char) -> int
    decreases s.len() - i when 0 <= i <= s.len()
{
    if i >= s.len() {
        s.len() as int
    } else if s[i] == c {
        i
    } else {
        find_from(s, i + 1, c)
    }
}

pub proof fn lemma_find_from(s: Seq<char>, i: int, c: char)
    requires
        0 <= i <= s.len(),
    ensures
        i <= find_from(s, i, c) <= s.len(),
        find_from(s, i, c) < s.len() ==> s[find_from(s, i, c)] == c,
        forall|j: int| i <= j < find_from(s, i, c) ==> s[j] != c,
    decreases s.len() - i,
{
    if i < s.len() && s[i] != c {
        lemma_find_from(s, i + 1, c);
    }
}

/// Runtime search matching [`find_from`].
pub fn find_char(v: &Vec<char>, from: usize, c: char) -> (r: usize)
    requires
        from <= v@.len(),
    ensures
        r == find_from(v@, from as int, c),
{
    let mut i: usize = from;
    while i < v.len()
        invariant
            from <= i <= v@.len(),
            find_from(v@, from as int, c) == find_from(v@, i as int, c),
        decreases v@.len() - i,
    {
        if v[i] == c {
            return i;
        }
        i = i + 1;
    }
    i
}

/// The position of the first divert marker (the pair `->`) in `s` at or
/// after `i`, or `s.len()` when there is none.
pub open spec fn divert_from(s: Seq<char>, i: int) -> int
    decreases s.len() - i when 0 <= i <= s.len()
{
    if i + 1 >= s.len() {
        s.len() as int
    } else if s[i] == '-' && s[i + 1] == '>' {
        i
    } else {
        divert_from(s, i + 1)
    }
}

pub proof fn lemma_divert_from(s: Seq<char>, i: int)
    requires
        0 <= i <= s.len(),
    ensures
        i <= divert_from(s, i) <= s.len(),
        divert_from(s, i) < s.len() ==> divert_from(s, i) + 1 < s.len()
            && s[divert_from(s, i)] == '-' && s[divert_from(s, i) + 1] == '>',
        forall|j: int| i <= j < divert_from(s, i) && j + 1 < s.len()
            ==> !(#[trigger] s[j] == '-' && s[j + 1] == '>'),
    decreases s.len() - i,
{
    if i + 1 < s.len() && !(s[i] == '-' && s[i + 1] == '>') {
        lemma_divert_from(s, i + 1);
    }
}

/// Runtime search matching [`divert_from`].
pub fn find_divert(v: &Vec<char>, from: usize) -> (r: usize)
    requires
        from <= v@.len(),
    ensures
        r == divert_from(v@, from as int),
{
    let mut i: usize = from;
    while i < v.len() && i + 1 < v.len()
        invariant
            from <= i <= v@.len(),
            divert_from(v@, from as int) == divert_from(v@, i as int),
        decreases v@.len() - i,
    {
        if v[i] == '-' && v[i + 1] == '>' {
            return i;
        }
        i = i + 1;
    }
    v.len()
}

/// The position of the first character at or after `i` that is neither the
/// marker `m` nor whitespace, or `s.len()` when there is none.
pub open spec fn marker_split(s: Seq<char>, i: int, m: char) -> int
    decreases s.len() - i when 0 <= i <= s.len()
{
    if i >= s.len() {
        s.len() as int
    } else if s[i] == m || is_space(s[i]) {
        marker_split(s, i + 1, m)
    } else {
        i
    }
}

pub proof fn lemma_marker_split(s: Seq<char>, i: int, m: char)
    requires
        0 <= i <= s.len(),
    ensures
        i <= marker_split(s, i, m) <= s.len(),
        marker_split(s, i, m) < s.len() ==> !(s[marker_split(s, i, m)] == m
            || is_space(s[marker_split(s, i, m)])),
        forall|j: int| i <= j < marker_split(s, i, m) ==> s[j] == m || is_space(s[j]),
    decreases s.len() - i,
{
    if i < s.len() && (s[i] == m || is_space(s[i])) {
        lemma_marker_split(s, i + 1, m);
    }
}

/// Runtime scan matching [`marker_split`].
pub fn find_marker_split(v: &Vec<char>, from: usize, m: char) -> (r: usize)
    requires
        from <= v@.len(),
    ensures
        r == marker_split(v@, from as int, m),
{
    let mut i: usize = from;
    while i < v.len()
        invariant
            from <= i <= v@.len(),
            marker_split(v@, from as int, m) == marker_split(v@, i as int, m),
        decreases v@.len() - i,
    {
        if !(v[i] == m || is_space_char(v[i])) {
            return i;
        }
        i = i + 1;
    }
    i
}

/// The position of the first non-whitespace character at or after `i`, or
/// `s.len()` when there is none.
pub open spec fn skip_spaces(s: Seq<char>, i: int) -> int
    decreases s.len() - i when 0 <= i <= s.len()
{
    if i >= s.len() {
        s.len() as int
    } else if is_space(s[i]) {
        skip_spaces(s, i + 1)
    } else {
        i
    }
}

pub proof fn lemma_skip_spaces(s: Seq<char>, i: int)
    requires
        0 <= i <= s.len(),
    ensures
        i <= skip_spaces(s, i) <= s.len(),
        skip_spaces(s, i) < s.len() ==> !is_space(s[skip_spaces(s, i)]),
        forall|j: int| i <= j < skip_spaces(s, i) ==> is_space(s[j]),
    decreases s.len() - i,
{
    if i < s.len() && is_space(s[i]) {
        lemma_skip_spaces(s, i + 1);
    }
}

/// Runtime scan matching [`skip_spaces`].
pub fn find_non_space(v: &Vec<char>, from: usize) -> (r: usize)
    requires
        from <= v@.len(),
    ensures
        r == skip_spaces(v@, from as int),
{
    let mut i: usize = from;
    while i < v.len()
        invariant
            from <= i <= v@.len(),
            skip_spaces(v@, from as int) == skip_spaces(v@, i as int),
        decreases v@.len() - i,
    {
        if !is_space_char(v[i]) {
            return i;
        }
        i = i + 1;
    }
    i
}

/// How many occurrences of `c` appear in `s` at or after `i`.
pub open spec fn count_char_from(s: Seq<char>, i: int, c: char) -> int
    decreases s.len() - i when 0 <= i <= s.len()
{
    if i >= s.len() {
        0
    } else if s[i] == c {
        1 + count_char_from(s, i + 1, c)
    } else {
        count_char_from(s, i + 1, c)
    }
}

pub proof fn lemma_count_char_from(s: Seq<char>, i: int, c: char)
    requires
        0 <= i <= s.len(),
    ensures
        0 <= count_char_from(s, i, c) <= s.len() - i,
    decreases s.len() - i,
{
    if i < s.len() {
        lemma_count_char_from(s, i + 1, c);
    }
}

/// Runtime count matching [`count_char_from`], over `v[from..to]`.
pub fn count_char(v: &Vec<char>, from: usize, to: usize, c: char) -> (r: usize)
    requires
        from <= to <= v@.len(),
    ensures
        r == count_char_from(v@.subrange(from as int, to as int), 0, c),
{
    let ghost s = v@.subrange(from as int, to as int);
    let mut n: usize = 0;
    let mut i: usize = from;
    proof {
        lemma_count_char_from(s, 0, c);
    }
    while i < to
        invariant
            from <= i <= to <= v@.len(),
            s == v@.subrange(from as int, to as int),
            count_char_from(s, 0, c) == n + count_char_from(s, i - from, c),
            n <= i - from,
        decreases to - i,
    {
        proof {
            lemma_count_char_from(s, i - from, c);
        }
        if v[i] == c {
            n = n + 1;
        }
        i = i + 1;
    }
    n
}

/// The text with runs of whitespace collapsed to single spaces and both
/// ends trimmed.  `started` records whether a word has begun, `pending`
/// whether a separating space is owed before the next word character.
pub open spec fn collapsed_from(s: Seq<char>, i: int, started: bool, pending: bool) -> Seq<char>
    decreases s.len() - i when 0 <= i <= s.len()
{
    if i >= s.len() {
        Seq::empty()
    } else if is_space(s[i]) {
        collapsed_from(s, i + 1, started, started)
    } else if pending {
        seq![' ', s[i]] + collapsed_from(s, i + 1, true, false)
    } else {
        seq![s[i]] + collapsed_from(s, i + 1, true, false)
    }
}

/// The text trimmed at both ends, with inner whitespace runs collapsed to
/// single spaces.
pub open spec fn collapsed(s: Seq<char>) -> Seq<char> {
    collapsed_from(s, 0, false, false)
}

/// Runtime collapsing matching [`collapsed`].
pub fn collapse_ws(v: &Vec<char>) -> (out: Vec<char>)
    ensures
        out@ == collapsed(v@),
{
    let mut out: Vec<char> = Vec::new();
    let mut started = false;
    let mut pending = false;
    let mut i: usize = 0;
    while i < v.len()
        invariant
            i <= v@.len(),
            collapsed(v@) == out@ + collapsed_from(v@, i as int, started, pending),
        decreases v@.len() - i,
    {
        let ghost prev_out = out@;
        let ghost prev_st = started;
        let ghost prev_pd = pending;
        let ghost ii = i as int;
        let c = v[i];
        if is_space_char(c) {
            pending = started;
        } else {
            if pending {
                out.push(' ');
            }
            out.push(c);
            started = true;
            pending = false;
        }
        i = i + 1;
        proof {
            assert(prev_out + collapsed_from(v@, ii, prev_st, prev_pd)
                =~= out@ + collapsed_from(v@, i as int, started, pending));
        }
    }
    proof {
        assert(out@ + collapsed_from(v@, v@.len() as int, started, pending) =~= out@);
    }
    out
}

/// The text with every leading occurrence of `c` removed.
pub open spec fn trim_start_char(s: Seq<char>, c: char) -> Seq<char>
    decreases s.len(),
{
    if s.len() > 0 && s[0] == c {
        trim_start_char(s.drop_first(), c)
    } else {
        s
    }
}

pub proof fn lemma_trim_start_char(s: Seq<char>, c: char, h: int)
    requires
        0 <= h <= s.len(),
        forall|j: int| 0 <= j < h ==> s[j] == c,
        h == s.len() || s[h] != c,
    ensures
        trim_start_char(s, c) == s.subrange(h, s.len() as int),
    decreases h,
{
    if h == 0 {
        assert(s.subrange(0, s.len() as int) =~= s);
    } else {
        let t = s.drop_first();
        lemma_trim_start_char(t, c, h - 1);
        assert(t.subrange(h - 1, t.len() as int) =~= s.subrange(h, s.len() as int));
    }
}

/// Runtime trim matching [`trim_start_char`].
pub fn trim_start_char_vec(v: &Vec<char>, c: char) -> (out: Vec<char>)
    ensures
        out@ == trim_start_char(v@, c),
{
    let mut h: usize = 0;
    while h < v.len() && v[h] == c
        invariant
            h <= v@.len(),
            forall|j: int| 0 <= j < h ==> v@[j] == c,
        decreases v@.len() - h,
    {
        h = h + 1;
    }
    proof {
        lemma_trim_start_char(v@, c, h as int);
    }
    subvec(v, h, v.len())
}

/// The text with every trailing occurrence of `c` removed.
pub open spec fn trim_end_char(s: Seq<char>, c: char) -> Seq<char>
    decreases s.len(),
{
    if s.len() > 0 && s[s.len() - 1] == c {
        trim_end_char(s.drop_last(), c)
    } else {
        s
    }
}

pub proof fn lemma_trim_end_char(s: Seq<char>, c: char, h: int)
    requires
        0 <= h <= s.len(),
        forall|j: int| h <= j < s.len() ==> s[j] == c,
        h == 0 || s[h - 1] != c,
    ensures
        trim_end_char(s, c) == s.subrange(0, h),
    decreases s.len(),
{
    if h == s.len() {
        assert(s.subrange(0, s.len() as int) =~= s);
    } else {
        let t = s.drop_last();
        lemma_trim_end_char(t, c, h);
        assert(t.subrange(0, h) =~= s.subrange(0, h));
    }
}

/// Runtime trim matching [`trim_end_char`].
pub fn trim_end_char_vec(v: &Vec<char>, c: char) -> (out: Vec<char>)
    ensures
        out@ == trim_end_char(v@, c),
{
    let mut h: usize = v.len();
    while h > 0 && v[h - 1] == c
        invariant
            h <= v@.len(),
            forall|j: int| h <= j < v@.len() ==> v@[j] == c,
        decreases h,
    {
        h = h - 1;
    }
    proof {
        lemma_trim_end_char(v@, c, h as int);
    }
    subvec(v, 0, h)
}

/// The text with leading whitespace removed.
pub open spec fn trim_start_spaces(s: Seq<char>) -> Seq<char>
    decreases s.len(),
{
    if s.len() > 0 && is_space(s[0]) {
        trim_start_spaces(s.drop_first())
    } else {
        s
    }
}

pub proof fn lemma_trim_start_spaces(s: Seq<char>, h: int)
    requires
        0 <= h <= s.len(),
        forall|j: int| 0 <= j < h ==> is_space(s[j]),
        h == s.len() || !is_space(s[h]),
    ensures
        trim_start_spaces(s) == s.subrange(h, s.len() as int),
    decreases h,
{
    if h == 0 {
        assert(s.subrange(0, s.len() as int) =~= s);
    } else {
        let t = s.drop_first();
        lemma_trim_start_spaces(t, h - 1);
        assert(t.subrange(h - 1, t.len() as int) =~= s.subrange(h, s.len() as int));
    }
}

/// The text with trailing whitespace removed.
pub open spec fn trim_end_spaces(s: Seq<char>) -> Seq<char>
    decreases s.len(),
{
    if s.len() > 0 && is_space(s[s.len() - 1]) {
        trim_end_spaces(s.drop_last())
    } else {
        s
    }
}

pub proof fn lemma_trim_end_spaces(s: Seq<char>, h: int)
    requires
        0 <= h <= s.len(),
        forall|j: int| h <= j < s.len() ==> is_space(s[j]),
        h == 0 || !is_space(s[h - 1]),
    ensures
        trim_end_spaces(s) == s.subrange(0, h),
    decreases s.len(),
{
    if h == s.len() {
        assert(s.subrange(0, s.len() as int) =~= s);
    } else {
        let t = s.drop_last();
        lemma_trim_end_spaces(t, h);
        assert(t.subrange(0, h) =~= s.subrange(0, h));
    }
}

/// The text with whitespace removed from both ends.
pub open spec fn trim_spaces(s: Seq<char>) -> Seq<char> {
    trim_end_spaces(trim_start_spaces(s))
}

/// Runtime trim matching [`trim_spaces`].
pub fn trim_spaces_vec(v: &Vec<char>) -> (out: Vec<char>)
    ensures
        out@ == trim_spaces(v@),
{
    let mut lo: usize = 0;
    while lo < v.len() && is_space_char(v[lo])
        invariant
            lo <= v@.len(),
            forall|j: int| 0 <= j < lo ==> is_space(v@[j]),
        decreases v@.len() - lo,
    {
        lo = lo + 1;
    }
    proof {
        lemma_trim_start_spaces(v@, lo as int);
    }
    let mut hi: usize = v.len();
    while hi > lo && is_space_char(v[hi - 1])
        invariant
            lo <= hi <= v@.len(),
            forall|j: int| hi <= j < v@.len() ==> is_space(v@[j]),
        decreases hi,
    {
        hi = hi - 1;
    }
    proof {
        let t = v@.subrange(lo as int, v@.len() as int);
        assert(forall|j: int| hi - lo <= j < t.len() ==> is_space(t[j]));
        lemma_trim_end_spaces(t, hi - lo);
        assert(t.subrange(0, hi - lo) =~= v@.subrange(lo as int, hi as int));
    }
    subvec(v, lo, hi)
}

/// The text with every leading divert marker (the pair `->`) removed.
pub open spec fn trim_start_pairs(s: Seq<char>) -> Seq<char>
    decreases s.len(),
{
    if s.len() >= 2 && s[0] == '-' && s[1] == '>' {
        trim_start_pairs(s.subrange(2, s.len() as int))
    } else {
        s
    }
}

/// Runtime trim matching [`trim_start_pairs`].
pub fn trim_start_pairs_vec(v: &Vec<char>) -> (out: Vec<char>)
    ensures
        out@ == trim_start_pairs(v@),
{
    let mut i: usize = 0;
    proof {
        assert(v@.subrange(0, v@.len() as int) =~= v@);
    }
    while i < v.len() && i + 1 < v.len() && v[i] == '-' && v[i + 1] == '>'
        invariant
            i <= v@.len(),
            trim_start_pairs(v@) == trim_start_pairs(v@.subrange(i as int, v@.len() as int)),
        decreases v@.len() - i,
    {
        proof {
            let s = v@.subrange(i as int, v@.len() as int);
            assert(s.subrange(2, s.len() as int)
                =~= v@.subrange(i + 2, v@.len() as int));
        }
        i = i + 2;
    }
    proof {
        assert(v@.subrange(0, v@.len() as int) =~= v@);
    }
    subvec(v, i, v.len())
}

/// The sections of `s` delimited by `c`: splitting on every occurrence,
/// with empty sections kept.
pub open spec fn split_char(s: Seq<char>, c: char) -> Seq<Seq<char>>
    decreases s.len() via split_char_dec
{
    let i = find_from(s, 0, c);
    if i == s.len() {
        seq![s]
    } else {
        seq![s.subrange(0, i)] + split_char(s.subrange(i + 1, s.len() as int), c)
    }
}

#[via_fn]
proof fn split_char_dec(s: Seq<char>, c: char) {
    lemma_find_from(s, 0, c);
}

/// Runtime split matching [`split_char`].
pub fn split_char_vec(v: &Vec<char>, c: char) -> (out: Vec<Vec<char>>)
    ensures
        out.deep_view() == split_char(v@, c),
{
    let mut out: Vec<Vec<char>> = Vec::new();
    let mut rest = subvec(v, 0, v.len());
    proof {
        assert(v@.subrange(0, v@.len() as int) =~= v@);
    }
    loop
        invariant
            split_char(v@, c) == out.deep_view() + split_char(rest@, c),
        decreases rest@.len(),
    {
        proof {
            lemma_find_from(rest@, 0, c);
        }
        let i = find_char(&rest, 0, c);
        let ghost prev = out.deep_view();
        let ghost r = rest@;
        if i == rest.len() {
            out.push(rest);
            proof {
                assert(out.deep_view() =~~= prev + seq![r]);
                assert(out.deep_view() =~= split_char(v@, c));
            }
            return out;
        } else {
            let piece = subvec(&rest, 0, i);
            out.push(piece);
            let next = subvec(&rest, i + 1, rest.len());
            proof {
                assert(out.deep_view() =~~= prev + seq![r.subrange(0, i as int)]);
                assert(prev + (seq![r.subrange(0, i as int)] + split_char(next@, c))
                    =~= out.deep_view() + split_char(next@, c));
            }
            rest = next;
        }
    }
}

} // verus!
