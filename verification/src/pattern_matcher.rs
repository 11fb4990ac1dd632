//! Entitlement filters: exact keys or glob patterns.
//!
//! A filter is read as a glob pattern over the characters of an entitlement key:
//! - `*` matches any sequence of characters (the empty one included);
//! - `?` matches exactly one character;
//! - `[set]` matches one character of the set and `[!set]` one character outside it;
//!   the first character after `[` (or `[!`) always belongs to the set, so `[]]`
//!   is the set holding `]`; `a-z` inside a set is the range from `a` to `z`;
//! - every other character matches itself, case-sensitively.
//!
//! A filter without `*`, `?` or `[` therefore matches exactly the key equal to it
//! (no substring matching). A `[` that opens no complete set makes the filter
//! invalid; an invalid filter matches no key.

use vstd::prelude::*;
use crate::text::{chars_of, find_from, find_chars_from, lemma_find_from};

verus! {

/// The bracket expression opening at `i`: whether it is negated, where its set
/// starts, and where its closing `]` stands. `None` when `[` at `i` opens no set.
pub open spec fn class_at(p: Seq<char>, i: int) -> Option<(bool, int, int)> {
    if p.len() - i > 1 && p[i + 1] == '!' {
        if p.len() - i >= 4 {
            match find_from(p, seq![']'], i + 3) {
                Some(j) => Some((true, i + 2, j)),
                None => None,
            }
        } else {
            None
        }
    } else if i + 3 <= p.len() {
        match find_from(p, seq![']'], i + 2) {
            Some(j) => Some((false, i + 1, j)),
            None => None,
        }
    } else {
        None
    }
}

/// Whether the set written in `p[k..end]` holds `c`.
pub open spec fn set_has(p: Seq<char>, k: int, end: int, c: char) -> bool
    decreases end - k,
{
    if k >= end {
        false
    } else if k + 3 <= end && p[k + 1] == '-' {
        ((p[k] as u32) <= (c as u32) && (c as u32) <= (p[k + 2] as u32)) || set_has(p, k + 3, end, c)
    } else {
        p[k] == c || set_has(p, k + 1, end, c)
    }
}

pub proof fn lemma_class_at_after(p: Seq<char>, i: int)
    requires
        0 <= i,
    ensures
        class_at(p, i) matches Some((neg, lo, hi)) ==> i < lo <= hi < p.len() && p[hi] == ']',
{
    lemma_find_from(p, seq![']'], i + 3);
    lemma_find_from(p, seq![']'], i + 2);
    match class_at(p, i) {
        Some((neg, lo, hi)) => {
            assert(p.subrange(hi, hi + 1)[0] == p[hi]);
        },
        None => {},
    }
}

/// Whether the pattern `p[i..]` matches the text `s[j..]`.
pub open spec fn glob_at(p: Seq<char>, i: int, s: Seq<char>, j: int) -> bool
    decreases p.len() - i, s.len() - j,
{
    if i < 0 || i >= p.len() {
        j == s.len()
    } else if p[i] == '*' {
        glob_at(p, i + 1, s, j) || (0 <= j < s.len() && glob_at(p, i, s, j + 1))
    } else if j < 0 || j >= s.len() {
        false
    } else if p[i] == '?' {
        glob_at(p, i + 1, s, j + 1)
    } else if p[i] == '[' {
        match class_at(p, i) {
            Some((neg, lo, hi)) => {
                proof {
                    lemma_class_at_after(p, i);
                }
                set_has(p, lo, hi, s[j]) != neg && glob_at(p, hi + 1, s, j + 1)
            },
            None => false,
        }
    } else {
        p[i] == s[j] && glob_at(p, i + 1, s, j + 1)
    }
}

/// A range `x-y` at the start of a set holds exactly the characters from `x` to `y`
/// (both ends included), whatever follows it in the set.
pub proof fn lemma_set_range(p: Seq<char>, k: int, end: int, c: char)
    requires
        0 <= k,
        k + 3 <= end <= p.len(),
        p[k + 1] == '-',
        (p[k] as u32) <= (c as u32) <= (p[k + 2] as u32),
    ensures
        set_has(p, k, end, c),
{
}

/// The pattern `[x-y]` matches a one-character key `c` exactly when the code point
/// of `c` lies from that of `x` to that of `y`, both ends included (`x` is not `!`,
/// which would negate the set, and `y` is not `]`, which would close it).
pub proof fn lemma_bracket_range_matches(x: char, y: char, c: char)
    requires
        x != '!',
        y != ']',
    ensures
        glob_match(seq!['[', x, '-', y, ']'], seq![c]) <==> ((x as u32) <= (c as u32) && (c as u32) <= (y as u32)),
{
    let p = seq!['[', x, '-', y, ']'];
    let s = seq![c];
    assert(p.subrange(2, 3) =~= seq!['-']);
    assert(p.subrange(3, 4) =~= seq![y]);
    assert(p.subrange(4, 5) =~= seq![']']);
    assert(p.subrange(2, 3)[0] != seq![']'][0]);
    assert(p.subrange(3, 4)[0] != seq![']'][0]);
    assert(!crate::text::occurs_at(p, seq![']'], 2));
    assert(!crate::text::occurs_at(p, seq![']'], 3));
    assert(crate::text::occurs_at(p, seq![']'], 4));
    assert(find_from(p, seq![']'], 4) == Some(4int));
    assert(find_from(p, seq![']'], 3) == Some(4int));
    assert(find_from(p, seq![']'], 2) == Some(4int));
    assert(class_at(p, 0) == Some((false, 1int, 4int)));
    assert(set_has(p, 4, 4, c) == false);
    assert(set_has(p, 1, 4, c) == ((x as u32) <= (c as u32) && (c as u32) <= (y as u32)));
    assert(glob_at(p, 5, s, 1));
}

/// The pattern `[!x-y]` matches a one-character key `c` exactly when its code point
/// lies outside those from `x` to `y` (`y` is not `]`).
pub proof fn lemma_negated_bracket_range_matches(x: char, y: char, c: char)
    requires
        y != ']',
    ensures
        glob_match(seq!['[', '!', x, '-', y, ']'], seq![c]) <==> !((x as u32) <= (c as u32) && (c as u32) <= (y as u32)),
{
    let p = seq!['[', '!', x, '-', y, ']'];
    let s = seq![c];
    assert(p.subrange(3, 4) =~= seq!['-']);
    assert(p.subrange(4, 5) =~= seq![y]);
    assert(p.subrange(5, 6) =~= seq![']']);
    assert(p.subrange(3, 4)[0] != seq![']'][0]);
    assert(p.subrange(4, 5)[0] != seq![']'][0]);
    assert(!crate::text::occurs_at(p, seq![']'], 3));
    assert(!crate::text::occurs_at(p, seq![']'], 4));
    assert(crate::text::occurs_at(p, seq![']'], 5));
    assert(find_from(p, seq![']'], 5) == Some(5int));
    assert(find_from(p, seq![']'], 4) == Some(5int));
    assert(find_from(p, seq![']'], 3) == Some(5int));
    assert(class_at(p, 0) == Some((true, 2int, 5int)));
    assert(set_has(p, 5, 5, c) == false);
    assert(set_has(p, 2, 5, c) == ((x as u32) <= (c as u32) && (c as u32) <= (y as u32)));
    assert(glob_at(p, 6, s, 1));
}

/// Whether the filter `p` matches the entitlement key `s`.
pub open spec fn glob_match(p: Seq<char>, s: Seq<char>) -> bool {
    glob_at(p, 0, s, 0)
}

/// Whether every `[` met while reading `p[i..]` opens a complete set.
pub open spec fn pattern_ok_from(p: Seq<char>, i: int) -> bool
    decreases p.len() - i,
{
    if i < 0 || i >= p.len() {
        true
    } else if p[i] == '[' {
        match class_at(p, i) {
            Some((neg, lo, hi)) => {
                proof {
                    lemma_class_at_after(p, i);
                }
                pattern_ok_from(p, hi + 1)
            },
            None => false,
        }
    } else {
        pattern_ok_from(p, i + 1)
    }
}

/// Whether `p` is a well-formed filter.
pub open spec fn pattern_valid(p: Seq<char>) -> bool {
    pattern_ok_from(p, 0)
}

/// Whether `p` holds no glob metacharacter, so that it is an exact key.
pub open spec fn is_literal(p: Seq<char>) -> bool {
    forall|k: int| 0 <= k < p.len() ==> p[k] != '*' && p[k] != '?' && p[k] != '['
}

/// Whether some filter matches some entitlement; no filter at all lets everything through.
pub open spec fn any_filter_matches(entitlements: Seq<Seq<char>>, filters: Seq<Seq<char>>) -> bool {
    filters.len() == 0 || exists|e: int, f: int|
        0 <= e < entitlements.len() && 0 <= f < filters.len() && #[trigger] glob_match(
            filters[f],
            entitlements[e],
        )
}

/// The view of a slice of strings as character sequences.
pub open spec fn strings_view(v: Seq<String>) -> Seq<Seq<char>> {
    v.map_values(|x: String| x@)
}


proof fn lemma_literal_suffix(p: Seq<char>, i: int, s: Seq<char>, j: int)
    requires
        is_literal(p),
        0 <= i <= p.len(),
        0 <= j <= s.len(),
    ensures
        glob_at(p, i, s, j) <==> p.skip(i) == s.skip(j),
    decreases p.len() - i,
{
    if i == p.len() {
        assert(p.skip(i) =~= Seq::<char>::empty());
        if j == s.len() {
            assert(s.skip(j) =~= Seq::<char>::empty());
        } else {
            assert(s.skip(j).len() > 0);
        }
    } else {
        assert(p[i] != '*' && p[i] != '?' && p[i] != '[');
        assert(p.skip(i).len() > 0);
        if j == s.len() {
            assert(s.skip(j).len() == 0);
        } else {
            lemma_literal_suffix(p, i + 1, s, j + 1);
            assert(p.skip(i) =~= seq![p[i]] + p.skip(i + 1));
            assert(s.skip(j) =~= seq![s[j]] + s.skip(j + 1));
            if p.skip(i) == s.skip(j) {
                assert(p.skip(i)[0] == s.skip(j)[0]);
                assert(p.skip(i + 1) =~= p.skip(i).drop_first());
                assert(s.skip(j + 1) =~= s.skip(j).drop_first());
            }
        }
    }
}

/// A filter without `*`, `?` or `[` matches exactly the one key equal to it:
/// there is no substring matching, and matching is case-sensitive.
pub proof fn lemma_literal_filter_is_exact(p: Seq<char>, s: Seq<char>)
    requires
        is_literal(p),
    ensures
        glob_match(p, s) <==> p == s,
{
    lemma_literal_suffix(p, 0, s, 0);
    assert(p.skip(0) =~= p);
    assert(s.skip(0) =~= s);
}

proof fn lemma_trailing_star(p: Seq<char>, s: Seq<char>, j: int)
    requires
        p.len() > 0,
        p[p.len() - 1] == '*',
        0 <= j <= s.len(),
    ensures
        glob_at(p, p.len() - 1, s, j),
    decreases s.len() - j,
{
    assert(glob_at(p, p.len() as int, s, s.len() as int));
    if j < s.len() {
        lemma_trailing_star(p, s, j + 1);
    }
}

/// The filter `*` matches every key.
pub proof fn lemma_star_matches_every_key(s: Seq<char>)
    ensures
        glob_match(seq!['*'], s),
{
    lemma_trailing_star(seq!['*'], s, 0);
}

proof fn lemma_prefix_suffix(lit: Seq<char>, i: int, s: Seq<char>, j: int)
    requires
        is_literal(lit),
        0 <= i <= lit.len(),
        0 <= j <= s.len(),
    ensures
        glob_at(lit.push('*'), i, s, j) <==> occurs_at_prefix(lit, i, s, j),
    decreases lit.len() - i,
{
    let q = lit.push('*');
    let l = lit.len() as int;
    if i == l {
        lemma_trailing_star(q, s, j);
        assert(lit.subrange(i, l) =~= s.subrange(j, j));
    } else {
        assert(q[i] == lit[i]);
        if j < s.len() {
            lemma_prefix_suffix(lit, i + 1, s, j + 1);
            assert(lit.subrange(i, l) =~= seq![lit[i]] + lit.subrange(i + 1, l));
            if s.len() - j >= l - i {
                assert(s.subrange(j, j + l - i) =~= seq![s[j]] + s.subrange(j + 1, j + 1 + l - (i + 1)));
                if occurs_at_prefix(lit, i, s, j) {
                    assert(lit.subrange(i, l)[0] == s.subrange(j, j + l - i)[0]);
                    assert(lit.subrange(i + 1, l) =~= lit.subrange(i, l).drop_first());
                    assert(s.subrange(j + 1, j + 1 + l - (i + 1)) =~= s.subrange(j, j + l - i).drop_first());
                }
            }
        }
    }
}

/// `s[j..]` starts with `lit[i..]`.
pub open spec fn occurs_at_prefix(lit: Seq<char>, i: int, s: Seq<char>, j: int) -> bool {
    &&& s.len() - j >= lit.len() - i
    &&& s.subrange(j, j + lit.len() - i) == lit.subrange(i, lit.len() as int)
}

/// A filter made of a literal prefix followed by `*` (such as `com.apple.security.*`)
/// matches exactly the keys that start with that prefix.
pub proof fn lemma_prefix_filter(lit: Seq<char>, s: Seq<char>)
    requires
        is_literal(lit),
    ensures
        glob_match(lit.push('*'), s) <==> crate::text::starts_with(s, lit),
{
    lemma_prefix_suffix(lit, 0, s, 0);
    assert(lit.subrange(0, lit.len() as int) =~= lit);
}

proof fn lemma_infix_suffix(lit: Seq<char>, i: int, s: Seq<char>, j: int)
    requires
        is_literal(lit),
        0 <= i <= lit.len(),
        0 <= j <= s.len(),
    ensures
        glob_at(seq!['*'] + lit.push('*'), i + 1, s, j) <==> occurs_at_prefix(lit, i, s, j),
    decreases lit.len() - i,
{
    let q = seq!['*'] + lit.push('*');
    let l = lit.len() as int;
    assert(q.len() == l + 2);
    if i == l {
        assert(q[l + 1] == '*');
        lemma_trailing_star(q, s, j);
        assert(lit.subrange(i, l) =~= s.subrange(j, j));
    } else {
        assert(q[i + 1] == lit[i]);
        if j < s.len() {
            lemma_infix_suffix(lit, i + 1, s, j + 1);
            assert(lit.subrange(i, l) =~= seq![lit[i]] + lit.subrange(i + 1, l));
            if s.len() - j >= l - i {
                assert(s.subrange(j, j + l - i) =~= seq![s[j]] + s.subrange(j + 1, j + 1 + l - (i + 1)));
                if occurs_at_prefix(lit, i, s, j) {
                    assert(lit.subrange(i, l)[0] == s.subrange(j, j + l - i)[0]);
                    assert(lit.subrange(i + 1, l) =~= lit.subrange(i, l).drop_first());
                    assert(s.subrange(j + 1, j + 1 + l - (i + 1)) =~= s.subrange(j, j + l - i).drop_first());
                }
            }
        }
    }
}

proof fn lemma_infix_scan(lit: Seq<char>, s: Seq<char>, j: int)
    requires
        is_literal(lit),
        0 <= j <= s.len(),
    ensures
        glob_at(seq!['*'] + lit.push('*'), 0, s, j) <==> exists|k: int|
            j <= k <= s.len() && #[trigger] occurs_at_prefix(lit, 0, s, k),
    decreases s.len() - j,
{
    let q = seq!['*'] + lit.push('*');
    assert(q[0] == '*');
    lemma_infix_suffix(lit, 0, s, j);
    if j < s.len() {
        lemma_infix_scan(lit, s, j + 1);
        if exists|k: int| j <= k <= s.len() && #[trigger] occurs_at_prefix(lit, 0, s, k) {
            let k = choose|k: int| j <= k <= s.len() && #[trigger] occurs_at_prefix(lit, 0, s, k);
            if k > j {
                assert(j + 1 <= k <= s.len() && occurs_at_prefix(lit, 0, s, k));
            }
        }
    } else {
        if exists|k: int| j <= k <= s.len() && #[trigger] occurs_at_prefix(lit, 0, s, k) {
            let k = choose|k: int| j <= k <= s.len() && #[trigger] occurs_at_prefix(lit, 0, s, k);
            assert(k == j);
        }
    }
}

/// A filter made of a literal between two `*` (such as `*network*`) matches exactly
/// the keys that contain that literal.
pub proof fn lemma_infix_filter(lit: Seq<char>, s: Seq<char>)
    requires
        is_literal(lit),
    ensures
        glob_match(seq!['*'] + lit.push('*'), s) <==> crate::text::contains(s, lit),
{
    lemma_infix_scan(lit, s, 0);
    let l = lit.len() as int;
    assert(lit.subrange(0, l) =~= lit);
    if crate::text::contains(s, lit) {
        let k = choose|k: int| crate::text::occurs_at(s, lit, k);
        assert(occurs_at_prefix(lit, 0, s, k));
    }
    if exists|k: int| 0 <= k <= s.len() && #[trigger] occurs_at_prefix(lit, 0, s, k) {
        let k = choose|k: int| 0 <= k <= s.len() && #[trigger] occurs_at_prefix(lit, 0, s, k);
        assert(crate::text::occurs_at(s, lit, k));
    }
}

proof fn lemma_match_needs_valid(p: Seq<char>, i: int, s: Seq<char>, j: int)
    requires
        0 <= i,
        glob_at(p, i, s, j),
    ensures
        pattern_ok_from(p, i),
    decreases p.len() - i, s.len() - j,
{
    if i >= p.len() {
    } else if p[i] == '*' {
        if glob_at(p, i + 1, s, j) {
            lemma_match_needs_valid(p, i + 1, s, j);
        } else {
            lemma_match_needs_valid(p, i, s, j + 1);
        }
    } else if p[i] == '?' {
        lemma_match_needs_valid(p, i + 1, s, j + 1);
    } else if p[i] == '[' {
        lemma_class_at_after(p, i);
        match class_at(p, i) {
            Some((neg, lo, hi)) => {
                lemma_match_needs_valid(p, hi + 1, s, j + 1);
            },
            None => {},
        }
    } else {
        lemma_match_needs_valid(p, i + 1, s, j + 1);
    }
}

/// A filter that fails validation matches no key at all.
pub proof fn lemma_invalid_filter_matches_nothing(p: Seq<char>, s: Seq<char>)
    requires
        !pattern_valid(p),
    ensures
        !glob_match(p, s),
{
    if glob_match(p, s) {
        lemma_match_needs_valid(p, 0, s, 0);
    }
}

/// With no filters every set of entitlements passes; with filters, a key passes
/// as soon as one filter matches it (the filters are alternatives).
pub proof fn lemma_filters_are_alternatives(entitlements: Seq<Seq<char>>, filters: Seq<Seq<char>>, e: int, f: int)
    requires
        0 <= e < entitlements.len(),
        0 <= f < filters.len(),
        glob_match(filters[f], entitlements[e]),
    ensures
        any_filter_matches(entitlements, filters),
        any_filter_matches(entitlements, Seq::<Seq<char>>::empty()),
{
}

/// Errors from validating entitlement filters.
#[derive(Debug, PartialEq, Eq)]
pub enum FilterError {
    /// The filter at `index` holds a `[` that opens no complete set.
    InvalidPattern { index: usize, pattern: String },
}

fn class_at_exec(p: &[char], i: usize) -> (r: Option<(bool, usize, usize)>)
    requires
        i < p@.len(),
    ensures
        match r {
            Some((neg, lo, hi)) => class_at(p@, i as int) == Some((neg, lo as int, hi as int)),
            None => class_at(p@, i as int) is None,
        },
{
    let close = ['\u{5d}'];
    assert(close@ == seq![']']);
    if p.len() - i > 1 && p[i + 1] == '!' {
        if p.len() - i >= 4 {
            match find_chars_from(p, close.as_slice(), i + 3) {
                Some(j) => Some((true, i + 2, j)),
                None => None,
            }
        } else {
            None
        }
    } else if p.len() - i >= 3 {
        match find_chars_from(p, close.as_slice(), i + 2) {
            Some(j) => Some((false, i + 1, j)),
            None => None,
        }
    } else {
        None
    }
}

fn set_has_exec(p: &[char], lo: usize, hi: usize, c: char) -> (b: bool)
    requires
        lo <= hi <= p@.len(),
    ensures
        b == set_has(p@, lo as int, hi as int, c),
{
    let mut k = lo;
    while k < hi
        invariant
            lo <= k <= hi + 2,
            hi <= p@.len(),
            set_has(p@, lo as int, hi as int, c) == set_has(p@, k as int, hi as int, c),
        decreases hi + 2 - k,
    {
        if hi - k >= 3 && p[k + 1] == '-' {
            if (p[k] as u32) <= (c as u32) && (c as u32) <= (p[k + 2] as u32) {
                return true;
            }
            k = k + 3;
        } else {
            if p[k] == c {
                return true;
            }
            k = k + 1;
        }
    }
    false
}

/// Whether the glob pattern `p` matches the text `s` (characters).
pub fn glob_match_chars(p: &[char], s: &[char]) -> (b: bool)
    ensures
        b == glob_match(p@, s@),
{
    let n = p.len();
    let m = s.len();
    // rows[n - i][m - j] holds glob_at(p, i, s, j)
    let mut rows: Vec<Vec<bool>> = Vec::new();
    let mut last: Vec<bool> = Vec::new();
    let mut t: usize = 0;
    loop
        invariant_except_break
            t <= m,
            last@.len() == t,
            forall|k: int| 0 <= k < t ==> last@[k] == glob_at(p@, n as int, s@, m - k),
        invariant
            m == s@.len(),
            n == p@.len(),
        ensures
            last@.len() == m + 1,
            forall|k: int| 0 <= k <= m ==> last@[k] == glob_at(p@, n as int, s@, m - k),
        decreases m - t,
    {
        last.push(t == 0);
        if t == m {
            break;
        }
        t = t + 1;
    }
    rows.push(last);
    let mut i: usize = n;
    while i > 0
        invariant
            i <= n,
            m == s@.len(),
            n == p@.len(),
            rows@.len() == n - i + 1,
            forall|r: int| 0 <= r < rows@.len() ==> #[trigger] rows@[r]@.len() == m + 1,
            forall|r: int, k: int|
                0 <= r < rows@.len() && 0 <= k <= m ==> #[trigger] rows@[r]@[k] == glob_at(
                    p@,
                    n - r,
                    s@,
                    m - k,
                ),
        decreases i,
    {
        i = i - 1;
        let pc = p[i];
        let class = if pc == '[' {
            class_at_exec(p, i)
        } else {
            None
        };
        proof {
            lemma_class_at_after(p@, i as int);
        }
        let mut row: Vec<bool> = Vec::new();
        let mut t: usize = 0;
        loop
            invariant_except_break
                t <= m,
                row@.len() == t,
                forall|k: int| 0 <= k < t ==> row@[k] == glob_at(p@, i as int, s@, m - k),
            invariant
                i < n,
                m == s@.len(),
                n == p@.len(),
                pc == p@[i as int],
                pc == '[' ==> (match class {
                    Some((neg, lo, hi)) => class_at(p@, i as int) == Some((neg, lo as int, hi as int)),
                    None => class_at(p@, i as int) is None,
                }),
                class_at(p@, i as int) matches Some((neg, lo, hi)) ==> i < lo <= hi < p@.len(),
                rows@.len() == n - i,
                forall|r: int| 0 <= r < rows@.len() ==> #[trigger] rows@[r]@.len() == m + 1,
                forall|r: int, k: int|
                    0 <= r < rows@.len() && 0 <= k <= m ==> #[trigger] rows@[r]@[k] == glob_at(
                        p@,
                        n - r,
                        s@,
                        m - k,
                    ),
            ensures
                row@.len() == m + 1,
                forall|k: int| 0 <= k <= m ==> row@[k] == glob_at(p@, i as int, s@, m - k),
            decreases m - t,
        {
            let j = m - t;
            let below = n - (i + 1);
            let v: bool = if pc == '*' {
                let skip = rows[below][t];
                if skip {
                    true
                } else if t > 0 {
                    row[t - 1]
                } else {
                    false
                }
            } else if t == 0 {
                false
            } else if pc == '?' {
                rows[below][t - 1]
            } else if pc == '[' {
                match class {
                    Some((neg, lo, hi)) => {
                        if set_has_exec(p, lo, hi, s[j]) != neg {
                            rows[n - (hi + 1)][t - 1]
                        } else {
                            false
                        }
                    },
                    None => false,
                }
            } else {
                pc == s[j] && rows[below][t - 1]
            };
            assert(v == glob_at(p@, i as int, s@, j as int));
            row.push(v);
            if t == m {
                break;
            }
            t = t + 1;
        }
        rows.push(row);
    }
    rows[n][m]
}

/// Whether the filter `filter` matches the entitlement key `entitlement`.
pub fn matches_entitlement_filter(entitlement: &str, filter: &str) -> (b: bool)
    ensures
        b == glob_match(filter@, entitlement@),
{
    let e = chars_of(entitlement);
    let f = chars_of(filter);
    glob_match_chars(f.as_slice(), e.as_slice())
}

/// Whether the filter `p` is well-formed.
pub fn pattern_is_valid(p: &str) -> (b: bool)
    ensures
        b == pattern_valid(p@),
{
    let v = chars_of(p);
    let n = v.len();
    let mut i: usize = 0;
    while i < n
        invariant
            n == v@.len(),
            v@ == p@,
            pattern_ok_from(p@, i as int) == pattern_ok_from(p@, 0),
        decreases n - i,
    {
        if v[i] == '[' {
            proof {
                lemma_class_at_after(p@, i as int);
            }
            match class_at_exec(v.as_slice(), i) {
                Some((_neg, _lo, hi)) => {
                    i = hi + 1;
                },
                None => {
                    return false;
                },
            }
        } else {
            i = i + 1;
        }
    }
    true
}

/// Checks every filter; the first ill-formed one is reported.
pub fn validate_entitlement_filters(filters: &[String]) -> (r: Result<(), FilterError>)
    ensures
        r is Ok <==> forall|k: int| 0 <= k < filters@.len() ==> pattern_valid(#[trigger] filters@[k]@),
        r matches Err(FilterError::InvalidPattern { index, pattern }) ==> {
            &&& index < filters@.len()
            &&& pattern@ == filters@[index as int]@
            &&& !pattern_valid(pattern@)
            &&& forall|k: int| 0 <= k < index ==> pattern_valid(#[trigger] filters@[k]@)
        },
{
    let mut k: usize = 0;
    while k < filters.len()
        invariant
            k <= filters@.len(),
            forall|l: int| 0 <= l < k ==> pattern_valid(#[trigger] filters@[l]@),
        decreases filters@.len() - k,
    {
        if !pattern_is_valid(filters[k].as_str()) {
            return Err(FilterError::InvalidPattern { index: k, pattern: filters[k].clone() });
        }
        k = k + 1;
    }
    Ok(())
}

/// Whether some entitlement matches some filter (an empty filter list lets everything through).
pub fn entitlements_match_filters(entitlements: &[String], filters: &[String]) -> (b: bool)
    ensures
        b == any_filter_matches(strings_view(entitlements@), strings_view(filters@)),
{
    if filters.len() == 0 {
        return true;
    }
    let ghost ev = strings_view(entitlements@);
    let ghost fv = strings_view(filters@);
    let mut e: usize = 0;
    while e < entitlements.len()
        invariant
            e <= entitlements@.len(),
            filters@.len() > 0,
            ev == strings_view(entitlements@),
            fv == strings_view(filters@),
            forall|a: int, f: int|
                0 <= a < e && 0 <= f < filters@.len() ==> !#[trigger] glob_match(fv[f], ev[a]),
        decreases entitlements@.len() - e,
    {
        let mut f: usize = 0;
        while f < filters.len()
            invariant
                e < entitlements@.len(),
                f <= filters@.len(),
                ev == strings_view(entitlements@),
                fv == strings_view(filters@),
                forall|a: int, g: int|
                    0 <= a < e && 0 <= g < filters@.len() ==> !#[trigger] glob_match(fv[g], ev[a]),
                forall|g: int| 0 <= g < f ==> !#[trigger] glob_match(fv[g], ev[e as int]),
            decreases filters@.len() - f,
        {
            if matches_entitlement_filter(entitlements[e].as_str(), filters[f].as_str()) {
                assert(glob_match(fv[f as int], ev[e as int]));
                return true;
            }
            f = f + 1;
        }
        e = e + 1;
    }
    false
}

} // verus!
