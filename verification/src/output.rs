//! The human-readable report of a static scan.
//!
//! Each reported binary is listed with its entitlements in key order (the byte
//! order in which `String`s compare, which is the order of their code points),
//! followed by a summary of the totals.

use vstd::prelude::*;
use crate::entitlements::{Entries, EntitlementMap, PlistValue, ValueV, keys_distinct};
use crate::models::{BinaryResult, EntitlementScanOutput, ScanSummary};
use crate::text::{chars_of, decimal, push_decimal, push_signed_decimal, push_str, signed_decimal};

verus! {

/// `a` comes before `b` in code-point order.
pub open spec fn key_less(a: Seq<char>, b: Seq<char>) -> bool
    decreases a.len(),
{
    if a.len() == 0 {
        b.len() > 0
    } else if b.len() == 0 {
        false
    } else if a[0] != b[0] {
        a[0] < b[0]
    } else {
        key_less(a.drop_first(), b.drop_first())
    }
}

/// No text comes before itself.
pub proof fn lemma_key_less_irreflexive(a: Seq<char>)
    ensures
        !key_less(a, a),
    decreases a.len(),
{
    if a.len() > 0 {
        lemma_key_less_irreflexive(a.drop_first());
    }
}

/// The order is transitive.
pub proof fn lemma_key_less_transitive(a: Seq<char>, b: Seq<char>, c: Seq<char>)
    requires
        key_less(a, b),
        key_less(b, c),
    ensures
        key_less(a, c),
    decreases a.len(),
{
    if a.len() > 0 && b.len() > 0 && c.len() > 0 && a[0] == b[0] && b[0] == c[0] {
        lemma_key_less_transitive(a.drop_first(), b.drop_first(), c.drop_first());
    }
}

/// Of two different texts, one comes first.
pub proof fn lemma_key_less_total(a: Seq<char>, b: Seq<char>)
    requires
        a != b,
    ensures
        key_less(a, b) || key_less(b, a),
    decreases a.len(),
{
    if a.len() == 0 && b.len() == 0 {
        assert(a =~= b);
    } else if a.len() > 0 && b.len() > 0 && a[0] == b[0] {
        assert(a.drop_first() != b.drop_first()) by {
            if a.drop_first() == b.drop_first() {
                assert(a =~= seq![a[0]] + a.drop_first());
                assert(b =~= seq![b[0]] + b.drop_first());
            }
        }
        lemma_key_less_total(a.drop_first(), b.drop_first());
    }
}

/// The keys increase strictly along `s`.
pub open spec fn keys_ascending(s: Entries) -> bool {
    forall|i: int, j: int| 0 <= i < j < s.len() ==> key_less(#[trigger] s[i].0, #[trigger] s[j].0)
}

/// `s` holds the entries of `m`, each once, in increasing key order.
pub open spec fn is_sorted_arrangement(m: Entries, s: Entries) -> bool {
    &&& s.len() == m.len()
    &&& forall|i: int| 0 <= i < s.len() ==> m.contains(#[trigger] s[i])
    &&& forall|j: int| 0 <= j < m.len() ==> s.contains(#[trigger] m[j])
    &&& keys_ascending(s)
}

/// The entries of `m` in increasing key order (there is exactly one such
/// arrangement when the keys are distinct).
pub open spec fn sorted_entries(m: Entries) -> Entries {
    choose|s: Entries| is_sorted_arrangement(m, s)
}

/// Two sequences with increasing keys and the same elements are equal.
pub proof fn lemma_ascending_unique(s: Entries, t: Entries)
    requires
        keys_ascending(s),
        keys_ascending(t),
        forall|x: (Seq<char>, ValueV)| s.contains(x) <==> t.contains(x),
    ensures
        s == t,
    decreases s.len(),
{
    if s.len() == 0 {
        if t.len() > 0 {
            assert(t.contains(t[0]));
        }
        assert(s =~= t);
    } else {
        assert(s.contains(s[0]));
        assert(t.len() > 0);
        assert(t.contains(t[0]));
        let j = choose|j: int| 0 <= j < t.len() && t[j] == s[0];
        let i = choose|i: int| 0 <= i < s.len() && s[i] == t[0];
        if j > 0 {
            assert(key_less(t[0].0, t[j].0));
            if i > 0 {
                assert(key_less(s[0].0, s[i].0));
                lemma_key_less_transitive(s[0].0, s[i].0, s[0].0);
                lemma_key_less_irreflexive(s[0].0);
            } else {
                lemma_key_less_irreflexive(t[0].0);
            }
        }
        assert(s[0] == t[0]);
        let s1 = s.drop_first();
        let t1 = t.drop_first();
        assert(keys_ascending(s1)) by {
            assert forall|a: int, b: int| 0 <= a < b < s1.len() implies key_less(
                #[trigger] s1[a].0,
                #[trigger] s1[b].0,
            ) by {
                assert(s1[a] == s[a + 1] && s1[b] == s[b + 1]);
            }
        }
        assert(keys_ascending(t1)) by {
            assert forall|a: int, b: int| 0 <= a < b < t1.len() implies key_less(
                #[trigger] t1[a].0,
                #[trigger] t1[b].0,
            ) by {
                assert(t1[a] == t[a + 1] && t1[b] == t[b + 1]);
            }
        }
        assert forall|x: (Seq<char>, ValueV)| s1.contains(x) <==> t1.contains(x) by {
            if s1.contains(x) {
                let a = choose|a: int| 0 <= a < s1.len() && s1[a] == x;
                assert(s[a + 1] == x);
                assert(key_less(s[0].0, s[a + 1].0));
                lemma_key_less_irreflexive(x.0);
                assert(s.contains(x));
                let b = choose|b: int| 0 <= b < t.len() && t[b] == x;
                assert(b != 0);
                assert(t1[b - 1] == x);
            }
            if t1.contains(x) {
                let a = choose|a: int| 0 <= a < t1.len() && t1[a] == x;
                assert(t[a + 1] == x);
                assert(key_less(t[0].0, t[a + 1].0));
                lemma_key_less_irreflexive(x.0);
                assert(t.contains(x));
                let b = choose|b: int| 0 <= b < s.len() && s[b] == x;
                assert(b != 0);
                assert(s1[b - 1] == x);
            }
        }
        lemma_ascending_unique(s1, t1);
        assert(s =~= seq![s[0]] + s1);
        assert(t =~= seq![t[0]] + t1);
    }
}

/// A sorted arrangement of `m` is `sorted_entries(m)`.
pub proof fn lemma_sorted_entries_is(m: Entries, s: Entries)
    requires
        is_sorted_arrangement(m, s),
    ensures
        sorted_entries(m) == s,
{
    let c = sorted_entries(m);
    assert(is_sorted_arrangement(m, c));
    assert forall|x: (Seq<char>, ValueV)| c.contains(x) <==> s.contains(x) by {
        if c.contains(x) {
            let a = choose|a: int| 0 <= a < c.len() && c[a] == x;
            assert(m.contains(c[a]));
            let b = choose|b: int| 0 <= b < m.len() && m[b] == x;
            assert(s.contains(m[b]));
        }
        if s.contains(x) {
            let a = choose|a: int| 0 <= a < s.len() && s[a] == x;
            assert(m.contains(s[a]));
            let b = choose|b: int| 0 <= b < m.len() && m[b] == x;
            assert(c.contains(m[b]));
        }
    }
    lemma_ascending_unique(c, s);
}

/// The entry at `i` has the smallest key.
spec fn min_key_at(m: Entries, i: int) -> bool {
    0 <= i < m.len() && forall|j: int| 0 <= j < m.len() && j != i ==> key_less(m[i].0, #[trigger] m[j].0)
}

/// Among entries with distinct keys, one has the smallest key.
proof fn lemma_min_key_exists(m: Entries)
    requires
        m.len() > 0,
        keys_distinct(m),
    ensures
        exists|i: int| #[trigger] min_key_at(m, i),
    decreases m.len(),
{
    let n = m.len() as int;
    if n == 1 {
        assert(min_key_at(m, 0));
    } else {
        let d = m.drop_last();
        lemma_min_key_exists(d);
        let i = choose|i: int| #[trigger] min_key_at(d, i);
        assert(d[i] == m[i]);
        assert(m[i].0 != m[n - 1].0);
        lemma_key_less_total(m[i].0, m[n - 1].0);
        if key_less(m[i].0, m[n - 1].0) {
            assert forall|j: int| 0 <= j < m.len() && j != i implies key_less(m[i].0, #[trigger] m[j].0) by {
                if j < n - 1 {
                    assert(d[j] == m[j]);
                }
            }
            assert(min_key_at(m, i));
        } else {
            assert forall|j: int| 0 <= j < m.len() && j != n - 1 implies key_less(m[n - 1].0, #[trigger] m[j].0) by {
                if j != i {
                    assert(d[j] == m[j]);
                    lemma_key_less_transitive(m[n - 1].0, m[i].0, m[j].0);
                }
            }
            assert(min_key_at(m, n - 1));
        }
    }
}

/// Entries with distinct keys have a sorted arrangement.
proof fn lemma_sorted_arrangement_exists(m: Entries)
    requires
        keys_distinct(m),
    ensures
        exists|s: Entries| is_sorted_arrangement(m, s),
    decreases m.len(),
{
    if m.len() == 0 {
        assert(is_sorted_arrangement(m, m));
    } else {
        lemma_min_key_exists(m);
        let i = choose|i: int| #[trigger] min_key_at(m, i);
        let r = m.remove(i);
        m.remove_ensures(i);
        assert forall|j: int| #![trigger r[j]] 0 <= j < r.len() implies exists|k: int| 0 <= k < m.len() && k != i && #[trigger] m[k] == r[j] by {
            if j < i {
                assert(m[j] == r[j]);
            } else {
                assert(m[j + 1] == r[j]);
            }
        }
        assert(keys_distinct(r)) by {
            assert forall|a: int, b: int| 0 <= a < b < r.len() implies r[a].0 != r[b].0 by {
                if b < i {
                    assert(r[a] == m[a] && r[b] == m[b]);
                } else if a < i {
                    assert(r[a] == m[a] && r[b] == m[b + 1]);
                } else {
                    assert(r[a] == m[a + 1] && r[b] == m[b + 1]);
                }
            }
        }
        lemma_sorted_arrangement_exists(r);
        let t = choose|t: Entries| is_sorted_arrangement(r, t);
        let s = seq![m[i]] + t;
        assert forall|k: int| 0 <= k < s.len() implies m.contains(#[trigger] s[k]) by {
            if k == 0 {
                assert(s[0] == m[i]);
            } else {
                assert(s[k] == t[k - 1]);
                assert(r.contains(t[k - 1]));
                let j = choose|j: int| 0 <= j < r.len() && r[j] == t[k - 1];
                let kk = choose|kk: int| 0 <= kk < m.len() && kk != i && #[trigger] m[kk] == r[j];
                assert(m[kk] == s[k]);
            }
        }
        assert forall|j: int| 0 <= j < m.len() implies s.contains(#[trigger] m[j]) by {
            if j == i {
                assert(s[0] == m[j]);
            } else {
                let rj = if j < i { j } else { j - 1 };
                assert(r[rj] == m[j]);
                assert(t.contains(r[rj]));
                let k = choose|k: int| 0 <= k < t.len() && t[k] == r[rj];
                assert(s[k + 1] == m[j]);
            }
        }
        assert forall|a: int, b: int| 0 <= a < b < s.len() implies key_less(#[trigger] s[a].0, #[trigger] s[b].0) by {
            if a == 0 {
                assert(s[b] == t[b - 1]);
                assert(r.contains(t[b - 1]));
                let j = choose|j: int| 0 <= j < r.len() && r[j] == t[b - 1];
                let kk = choose|kk: int| 0 <= kk < m.len() && kk != i && #[trigger] m[kk] == r[j];
                assert(key_less(m[i].0, m[kk].0));
            } else {
                assert(s[a] == t[a - 1] && s[b] == t[b - 1]);
            }
        }
        assert(is_sorted_arrangement(m, s));
    }
}

/// The entitlements of a binary are listed each once, in increasing key order.
pub proof fn lemma_sorted_entries_sorted(m: Entries)
    requires
        keys_distinct(m),
    ensures
        is_sorted_arrangement(m, sorted_entries(m)),
{
    lemma_sorted_arrangement_exists(m);
}

/// The report does not depend on the order in which a binary's entitlements are
/// stored: two maps with the same entries are listed alike.
pub proof fn lemma_listing_ignores_storage_order(m1: Entries, m2: Entries)
    requires
        keys_distinct(m1),
        keys_distinct(m2),
        forall|x: (Seq<char>, ValueV)| m1.contains(x) <==> m2.contains(x),
    ensures
        sorted_entries(m1) == sorted_entries(m2),
        entries_text(sorted_entries(m1)) == entries_text(sorted_entries(m2)),
{
    lemma_sorted_entries_sorted(m1);
    lemma_sorted_entries_sorted(m2);
    let s1 = sorted_entries(m1);
    let s2 = sorted_entries(m2);
    assert forall|x: (Seq<char>, ValueV)| s1.contains(x) <==> s2.contains(x) by {
        if s1.contains(x) {
            let a = choose|a: int| 0 <= a < s1.len() && s1[a] == x;
            assert(m1.contains(s1[a]));
            assert(m2.contains(x));
            let b = choose|b: int| 0 <= b < m2.len() && m2[b] == x;
            assert(s2.contains(m2[b]));
        }
        if s2.contains(x) {
            let a = choose|a: int| 0 <= a < s2.len() && s2[a] == x;
            assert(m2.contains(s2[a]));
            assert(m1.contains(x));
            let b = choose|b: int| 0 <= b < m1.len() && m1[b] == x;
            assert(s1.contains(m1[b]));
        }
    }
    lemma_ascending_unique(s1, s2);
}

/// `j` is one of the positions in `o`.
pub open spec fn has_pos(o: Seq<usize>, j: int) -> bool {
    exists|i: int| 0 <= i < o.len() && o[i] == j
}

/// Whether `a` comes before `b` in code-point order.
fn key_less_exec(a: &[char], b: &[char]) -> (r: bool)
    ensures
        r == key_less(a@, b@),
{
    let mut k: usize = 0;
    assert(a@.skip(0) =~= a@ && b@.skip(0) =~= b@);
    while k < a.len() && k < b.len() && a[k] == b[k]
        invariant
            k <= a@.len(),
            k <= b@.len(),
            key_less(a@, b@) == key_less(a@.skip(k as int), b@.skip(k as int)),
        decreases a@.len() - k,
    {
        assert(a@.skip(k as int).drop_first() =~= a@.skip(k + 1));
        assert(b@.skip(k as int).drop_first() =~= b@.skip(k + 1));
        k = k + 1;
    }
    if k == a.len() {
        k < b.len()
    } else if k == b.len() {
        false
    } else {
        a[k] < b[k]
    }
}

/// The positions of the entries of `m` in increasing key order.
fn sorted_positions(m: &EntitlementMap) -> (order: Vec<usize>)
    requires
        keys_distinct(m@),
    ensures
        order@.len() == m@.len(),
        forall|i: int| 0 <= i < order@.len() ==> #[trigger] order@[i] < m@.len(),
        forall|j: int| 0 <= j < m@.len() ==> #[trigger] has_pos(order@, j),
        forall|i: int, k: int|
            0 <= i < k < order@.len() ==> key_less(
                m@[#[trigger] order@[i] as int].0,
                m@[#[trigger] order@[k] as int].0,
            ),
{
    let n = m.entries.len();
    let mut keys: Vec<Vec<char>> = Vec::new();
    let mut idx: usize = 0;
    while idx < n
        invariant
            n == m@.len(),
            n == m.entries@.len(),
            idx <= n,
            keys@.len() == idx,
            forall|j: int| 0 <= j < idx ==> #[trigger] keys@[j]@ == m@[j].0,
        decreases n - idx,
    {
        assert(m@[idx as int].0 == m.entries@[idx as int].0@);
        keys.push(chars_of(m.entries[idx].0.as_str()));
        idx = idx + 1;
    }
    let mut order: Vec<usize> = Vec::new();
    let mut k: usize = 0;
    while k < n
        invariant
            n == m@.len(),
            keys@.len() == n,
            forall|j: int| 0 <= j < n ==> #[trigger] keys@[j]@ == m@[j].0,
            keys_distinct(m@),
            k <= n,
            order@.len() == k,
            forall|i: int| 0 <= i < order@.len() ==> #[trigger] order@[i] < k,
            forall|j: int| 0 <= j < k ==> #[trigger] has_pos(order@, j),
            forall|i: int, l: int|
                0 <= i < l < order@.len() ==> key_less(
                    m@[#[trigger] order@[i] as int].0,
                    m@[#[trigger] order@[l] as int].0,
                ),
        decreases n - k,
    {
        let mut p: usize = 0;
        while p < order.len() && key_less_exec(keys[order[p]].as_slice(), keys[k].as_slice())
            invariant
                n == m@.len(),
                keys@.len() == n,
                forall|j: int| 0 <= j < n ==> #[trigger] keys@[j]@ == m@[j].0,
                k < n,
                order@.len() == k,
                forall|i: int| 0 <= i < order@.len() ==> #[trigger] order@[i] < k,
                p <= order@.len(),
                forall|q: int| 0 <= q < p ==> key_less(m@[#[trigger] order@[q] as int].0, m@[k as int].0),
            decreases order@.len() - p,
        {
            p = p + 1;
        }
        let ghost old_order = order@;
        proof {
            if p < old_order.len() {
                let op = old_order[p as int] as int;
                assert(op < k);
                assert(m@[op].0 != m@[k as int].0);
                assert(!key_less(m@[op].0, m@[k as int].0));
                lemma_key_less_total(m@[op].0, m@[k as int].0);
            }
        }
        order.insert(p, k);
        proof {
            old_order.insert_ensures(p as int, k);
            let o = order@;
            assert forall|i: int| 0 <= i < o.len() implies #[trigger] o[i] < k + 1 by {
                if i < p {
                    assert(o[i] == old_order[i]);
                } else if i > p {
                    assert(o[i] == old_order[i - 1]);
                }
            }
            assert forall|j: int| 0 <= j < k + 1 implies #[trigger] has_pos(o, j) by {
                if j == k {
                    assert(o[p as int] == k);
                } else {
                    assert(has_pos(old_order, j));
                    let i = choose|i: int| 0 <= i < old_order.len() && old_order[i] == j;
                    if i < p {
                        assert(o[i] == j);
                    } else {
                        assert(o[i + 1] == j);
                    }
                }
            }
            assert forall|i: int, l: int| 0 <= i < l < o.len() implies key_less(
                m@[#[trigger] o[i] as int].0,
                m@[#[trigger] o[l] as int].0,
            ) by {
                let kk = k as int;
                let pp = p as int;
                if l < pp {
                    assert(o[i] == old_order[i] && o[l] == old_order[l]);
                } else if l == pp {
                    assert(o[i] == old_order[i]);
                } else if i < pp {
                    assert(o[i] == old_order[i] && o[l] == old_order[l - 1]);
                } else if i == pp {
                    assert(o[l] == old_order[l - 1]);
                    if l - 1 > pp {
                        assert(key_less(m@[old_order[pp] as int].0, m@[old_order[l - 1] as int].0));
                        lemma_key_less_transitive(
                            m@[kk].0,
                            m@[old_order[pp] as int].0,
                            m@[old_order[l - 1] as int].0,
                        );
                    }
                } else {
                    assert(o[i] == old_order[i - 1] && o[l] == old_order[l - 1]);
                }
            }
        }
        k = k + 1;
    }
    order
}

/// How a value is shown.
pub open spec fn value_text(v: ValueV) -> Seq<char> {
    match v {
        ValueV::Bool(b) => if b {
            "true"@
        } else {
            "false"@
        },
        ValueV::Str(s) => s,
        ValueV::Int(n) => signed_decimal(n as int),
    }
}

/// The line of one entitlement.
pub open spec fn entry_line(e: (Seq<char>, ValueV)) -> Seq<char> {
    "  "@ + e.0 + ": "@ + value_text(e.1) + "\n"@
}

/// The lines of the entitlements, in order.
pub open spec fn entries_text(s: Entries) -> Seq<char>
    decreases s.len(),
{
    if s.len() == 0 {
        Seq::empty()
    } else {
        entries_text(s.drop_last()) + entry_line(s.last())
    }
}

/// The block of one binary: its path, its entitlements in key order, a blank line.
pub open spec fn result_block(r: BinaryResult) -> Seq<char> {
    r.path@ + ":\n"@ + entries_text(sorted_entries(r.entitlements@)) + "\n"@
}

/// The blocks of all binaries, in order.
pub open spec fn results_text(rs: Seq<BinaryResult>) -> Seq<char>
    decreases rs.len(),
{
    if rs.len() == 0 {
        Seq::empty()
    } else {
        results_text(rs.drop_last()) + result_block(rs.last())
    }
}

/// The number of reported entitlements over all binaries.
pub open spec fn total_entitlements(rs: Seq<BinaryResult>) -> int
    decreases rs.len(),
{
    if rs.len() == 0 {
        0
    } else {
        total_entitlements(rs.drop_last()) + rs.last().entitlement_count
    }
}

/// A line made of a label, a number and what follows it.
pub open spec fn count_line(label: Seq<char>, n: nat, unit: Seq<char>) -> Seq<char> {
    label + decimal(n) + unit
}

/// The line of unreadable binaries, shown only when there are some.
pub open spec fn skipped_line(s: ScanSummary) -> Seq<char> {
    if s.skipped_unreadable > 0 {
        count_line("  Skipped (unreadable): "@, s.skipped_unreadable as nat, " files\n"@)
    } else {
        Seq::empty()
    }
}

/// The duration: in milliseconds below one second, else `seconds` (the duration in
/// seconds with two decimals).
pub open spec fn duration_line(s: ScanSummary, seconds: Seq<char>) -> Seq<char> {
    if s.duration_ms < 1000 {
        count_line("  Duration: "@, s.duration_ms as nat, "ms\n"@)
    } else {
        "  Duration: "@ + seconds + "s\n"@
    }
}

/// The line shown after an interruption.
pub open spec fn status_line(s: ScanSummary) -> Seq<char> {
    if s.interrupted == Some(true) {
        "  Status: Interrupted by user\n"@
    } else {
        Seq::empty()
    }
}

/// The summary: a `---` line that sets it apart, then its lines.
pub open spec fn summary_text(s: ScanSummary, seconds: Seq<char>) -> Seq<char> {
    "---\n"@ + "Scan Summary:\n"@ + count_line("  Scanned: "@, s.scanned as nat, " files\n"@) + count_line(
        "  Matched: "@,
        s.matched as nat,
        " files\n"@,
    ) + skipped_line(s) + duration_line(s, seconds) + status_line(s)
}

/// The whole report.
pub open spec fn human_report(out: EntitlementScanOutput, seconds: Seq<char>) -> Seq<char> {
    (if out.results@.len() == 0 {
        "No binaries found with entitlements.\n"@
    } else {
        "Found "@ + decimal(out.results@.len()) + " binaries with "@ + decimal(
            total_entitlements(out.results@) as nat,
        ) + " total entitlements:\n\n"@ + results_text(out.results@)
    }) + summary_text(out.summary, seconds)
}

/// Every reported binary has distinct entitlement keys.
pub open spec fn results_well_formed(rs: Seq<BinaryResult>) -> bool {
    forall|r: int| 0 <= r < rs.len() ==> keys_distinct(#[trigger] rs[r].entitlements@)
}

fn push_value(s: &mut String, v: &PlistValue)
    ensures
        final(s)@ == old(s)@ + value_text(v@),
{
    match v {
        PlistValue::Bool(b) => {
            if *b {
                push_str(s, "true");
            } else {
                push_str(s, "false");
            }
        },
        PlistValue::Str(t) => push_str(s, t.as_str()),
        PlistValue::Int(n) => push_signed_decimal(s, *n),
    }
}

/// The lines of the entitlements of `m`, in key order.
fn push_sorted_entries(text: &mut String, m: &EntitlementMap)
    requires
        keys_distinct(m@),
    ensures
        final(text)@ == old(text)@ + entries_text(sorted_entries(m@)),
{
    let order = sorted_positions(m);
    let ghost s = Seq::new(order@.len(), |i: int| m@[order@[i] as int]);
    proof {
        assert forall|i: int| 0 <= i < s.len() implies m@.contains(#[trigger] s[i]) by {
            assert(order@[i] < m@.len());
        }
        assert forall|j: int| 0 <= j < m@.len() implies s.contains(#[trigger] m@[j]) by {
            assert(has_pos(order@, j));
            let i = choose|i: int| 0 <= i < order@.len() && order@[i] == j;
            assert(s[i] == m@[j]);
        }
        assert forall|i: int, j: int| 0 <= i < j < s.len() implies key_less(
            #[trigger] s[i].0,
            #[trigger] s[j].0,
        ) by {
            assert(key_less(m@[order@[i] as int].0, m@[order@[j] as int].0));
        }
        lemma_sorted_entries_is(m@, s);
    }
    let mut i: usize = 0;
    while i < order.len()
        invariant
            i <= order@.len(),
            s.len() == order@.len(),
            forall|q: int| 0 <= q < order@.len() ==> #[trigger] order@[q] < m@.len(),
            forall|q: int| 0 <= q < s.len() ==> #[trigger] s[q] == m@[order@[q] as int],
            m@.len() == m.entries@.len(),
            text@ == old(text)@ + entries_text(s.take(i as int)),
        decreases order@.len() - i,
    {
        let e = &m.entries[order[i]];
        assert(s[i as int] == (e.0@, e.1@));
        push_str(text, "  ");
        push_str(text, e.0.as_str());
        push_str(text, ": ");
        push_value(text, &e.1);
        push_str(text, "\n");
        assert(s.take(i + 1).drop_last() =~= s.take(i as int));
        assert(old(text)@ + entries_text(s.take(i + 1)) =~= old(text)@ + entries_text(s.take(i as int))
            + "  "@ + e.0@ + ": "@ + value_text(e.1@) + "\n"@);
        i = i + 1;
    }
    assert(s.take(s.len() as int) =~= s);
}

/// Totals of a prefix never exceed the total of a longer prefix.
proof fn lemma_total_monotone(rs: Seq<BinaryResult>, i: int, j: int)
    requires
        0 <= i <= j <= rs.len(),
    ensures
        total_entitlements(rs.take(i)) <= total_entitlements(rs.take(j)),
    decreases j - i,
{
    if i < j {
        lemma_total_monotone(rs, i, j - 1);
        assert(rs.take(j).drop_last() =~= rs.take(j - 1));
    }
}

fn push_count_line(text: &mut String, label: &str, n: u64, unit: &str)
    ensures
        final(text)@ == old(text)@ + count_line(label@, n as nat, unit@),
{
    push_str(text, label);
    push_decimal(text, n);
    push_str(text, unit);
    assert(text@ =~= old(text)@ + count_line(label@, n as nat, unit@));
}

fn push_summary(text: &mut String, s: &ScanSummary, seconds: &str)
    ensures
        final(text)@ == old(text)@ + summary_text(*s, seconds@),
{
    let ghost t0 = text@;
    push_str(text, "---\n");
    push_str(text, "Scan Summary:\n");
    push_count_line(text, "  Scanned: ", s.scanned as u64, " files\n");
    push_count_line(text, "  Matched: ", s.matched as u64, " files\n");
    let ghost t1 = text@;
    if s.skipped_unreadable > 0 {
        push_count_line(text, "  Skipped (unreadable): ", s.skipped_unreadable as u64, " files\n");
    }
    assert(text@ =~= t1 + skipped_line(*s));
    let ghost t2 = text@;
    if s.duration_ms < 1000 {
        push_count_line(text, "  Duration: ", s.duration_ms, "ms\n");
    } else {
        push_str(text, "  Duration: ");
        push_str(text, seconds);
        push_str(text, "s\n");
    }
    assert(text@ =~= t2 + duration_line(*s, seconds@));
    let ghost t3 = text@;
    if s.interrupted == Some(true) {
        push_str(text, "  Status: Interrupted by user\n");
    }
    assert(text@ =~= t3 + status_line(*s));
    assert(text@ =~= t0 + summary_text(*s, seconds@));
}

/// The human-readable report of a scan: the binaries with their entitlements in key
/// order (or a line saying there are none), then the summary. `seconds` is how the
/// duration is shown from one second on: the seconds with two decimals, as the
/// caller formats them.
pub fn format_human(output: &EntitlementScanOutput, seconds: &str) -> (text: String)
    requires
        results_well_formed(output.results@),
        total_entitlements(output.results@) <= usize::MAX,
    ensures
        text@ == human_report(*output, seconds@),
{
    let mut text = String::new();
    let rs = &output.results;
    if rs.len() == 0 {
        push_str(&mut text, "No binaries found with entitlements.\n");
    } else {
        let mut total: usize = 0;
        let mut i: usize = 0;
        while i < rs.len()
            invariant
                i <= rs@.len(),
                total == total_entitlements(rs@.take(i as int)),
                total_entitlements(rs@) <= usize::MAX,
            decreases rs@.len() - i,
        {
            proof {
                lemma_total_monotone(rs@, i + 1, rs@.len() as int);
                assert(rs@.take(rs@.len() as int) =~= rs@);
                assert(rs@.take(i + 1).drop_last() =~= rs@.take(i as int));
            }
            total = total + rs[i].entitlement_count;
            i = i + 1;
        }
        assert(rs@.take(rs@.len() as int) =~= rs@);
        push_str(&mut text, "Found ");
        push_decimal(&mut text, rs.len() as u64);
        push_str(&mut text, " binaries with ");
        push_decimal(&mut text, total as u64);
        push_str(&mut text, " total entitlements:\n\n");
        let ghost head = text@;
        let mut j: usize = 0;
        while j < rs.len()
            invariant
                j <= rs@.len(),
                results_well_formed(rs@),
                text@ == head + results_text(rs@.take(j as int)),
            decreases rs@.len() - j,
        {
            let r = &rs[j];
            assert(keys_distinct(rs@[j as int].entitlements@));
            let ghost before = text@;
            push_str(&mut text, r.path.as_str());
            push_str(&mut text, ":\n");
            push_sorted_entries(&mut text, &r.entitlements);
            push_str(&mut text, "\n");
            assert(rs@.take(j + 1).drop_last() =~= rs@.take(j as int));
            assert(text@ =~= head + results_text(rs@.take(j + 1)));
            j = j + 1;
        }
        assert(rs@.take(rs@.len() as int) =~= rs@);
    }
    let ghost top = text@;
    push_summary(&mut text, &output.summary, seconds);
    text
}

} // verus!
