//! Which files a static scan examines, and how each binary's entitlements are counted
//! and reported.

use vstd::prelude::*;
use vstd::string::StringExecFns;
use crate::entitlements::{
    EntitlementMap, Entries, PlistError, PlistValue, keys_distinct, keys_of, parse_entitlements_plist, parse_plist_spec,
    plist_error_text,
};
use crate::progress::{ScanProgress, bump_scanned, bump_skipped, scanned_output, skipped_output};
use crate::text::push_str;
use crate::models::{BinaryResult, EntitlementScanOutput, ScanConfig, ScanSummary};
use crate::pattern_matcher::{
    any_filter_matches, entitlements_match_filters, glob_match, matches_entitlement_filter, strings_view,
};

verus! {

/// A file the scan examines.
#[derive(Debug, Clone)]
pub struct DiscoveredBinary {
    pub path: String,
}

/// The first four bytes of a Mach-O file or of a universal binary, in either byte order.
pub open spec fn is_mach_o_magic_spec(h: Seq<u8>) -> bool {
    h.len() == 4 && (h == seq![0xfeu8, 0xedu8, 0xfau8, 0xceu8] || h == seq![0xceu8, 0xfau8, 0xedu8, 0xfeu8]
        || h == seq![0xfeu8, 0xedu8, 0xfau8, 0xcfu8] || h == seq![0xcfu8, 0xfau8, 0xedu8, 0xfeu8]
        || h == seq![0xcau8, 0xfeu8, 0xbau8, 0xbeu8] || h == seq![0xbeu8, 0xbau8, 0xfeu8, 0xcau8])
}

/// Whether the file header is a Mach-O (or universal binary) magic number.
pub fn is_mach_o_magic(h: &[u8]) -> (b: bool)
    ensures
        b == is_mach_o_magic_spec(h@),
{
    if h.len() != 4 {
        return false;
    }
    let (a, b, c, d) = (h[0], h[1], h[2], h[3]);
    let r = (a == 0xfe && b == 0xed && c == 0xfa && d == 0xce) || (a == 0xce && b == 0xfa && c == 0xed && d
        == 0xfe) || (a == 0xfe && b == 0xed && c == 0xfa && d == 0xcf) || (a == 0xcf && b == 0xfa && c == 0xed
        && d == 0xfe) || (a == 0xca && b == 0xfe && c == 0xba && d == 0xbe) || (a == 0xbe && b == 0xba && c
        == 0xfe && d == 0xca);
    assert(h@ =~= seq![a, b, c, d]);
    r
}

/// Whether a file is examined: it is executable by someone, or its header is a Mach-O
/// magic number. `mode` is its permission bits (`None` when its metadata cannot be
/// read, and then it is not examined); `header` its first four bytes (`None` when they
/// cannot be read).
pub fn check_single_file(path: &str, mode: Option<u32>, header: Option<&[u8]>) -> (r: Option<DiscoveredBinary>)
    ensures
        r is Some <==> (mode matches Some(m) && ((m & 0o111u32) != 0 || (header matches Some(h)
            && is_mach_o_magic_spec(h@)))),
        r matches Some(d) ==> d.path@ == path@,
{
    let m = match mode {
        Some(m) => m,
        None => {
            return None;
        },
    };
    let is_executable = (m & 0o111u32) != 0;
    let is_mach_o = match header {
        Some(h) => is_mach_o_magic(h),
        None => false,
    };
    if is_executable || is_mach_o {
        Some(DiscoveredBinary { path: path.to_owned() })
    } else {
        None
    }
}

/// The key matches one of the filters.
pub open spec fn key_matched(filters: Seq<Seq<char>>, key: Seq<char>) -> bool {
    exists|f: int| 0 <= f < filters.len() && #[trigger] glob_match(filters[f], key)
}

/// The entries whose key matches one of the filters, in order.
pub open spec fn entries_matching(m: Entries, filters: Seq<Seq<char>>, n: int) -> Entries
    decreases n,
{
    if n <= 0 {
        Seq::empty()
    } else {
        let rest = entries_matching(m, filters, n - 1);
        if key_matched(filters, m[n - 1].0) {
            rest.push(m[n - 1])
        } else {
            rest
        }
    }
}

/// The entitlements reported for a binary: all of them without filters, else those
/// whose key matches a filter.
pub open spec fn reported_entries(m: Entries, filters: Seq<Seq<char>>) -> Entries {
    if filters.len() == 0 {
        m
    } else {
        entries_matching(m, filters, m.len() as int)
    }
}

/// Running totals and results of a static scan.
#[derive(Debug)]
pub struct ScanTally {
    pub results: Vec<BinaryResult>,
    pub scanned: usize,
    pub matched: usize,
    pub skipped_unreadable: usize,
}

impl ScanTally {
    /// Nothing counted yet.
    pub fn new() -> (t: Self)
        ensures
            t.results@.len() == 0,
            t.scanned == 0,
            t.matched == 0,
            t.skipped_unreadable == 0,
            tally_consistent(t),
    {
        ScanTally { results: Vec::new(), scanned: 0, matched: 0, skipped_unreadable: 0 }
    }
}

/// The running totals agree with each other: every matched binary has one result,
/// each result counts its own entitlements, and no binary is both matched and
/// unreadable, so these two together never exceed the binaries scanned.
pub open spec fn tally_consistent(t: ScanTally) -> bool {
    &&& t.matched == t.results@.len()
    &&& t.matched + t.skipped_unreadable <= t.scanned
    &&& forall|i: int| 0 <= i < t.results@.len() ==> (#[trigger] t.results@[i]).entitlement_count
        == t.results@[i].entitlements@.len()
}

/// Counting one binary keeps the running totals consistent.
pub proof fn lemma_binary_counted_keeps_totals(
    old: ScanTally,
    new: ScanTally,
    path: Seq<char>,
    extracted: Option<Entries>,
    filters: Seq<Seq<char>>,
)
    requires
        tally_consistent(old),
        binary_counted(old, new, path, extracted, filters),
    ensures
        tally_consistent(new),
{
    if reported_binary(extracted, filters) {
        assert forall|i: int| 0 <= i < new.results@.len() implies (#[trigger] new.results@[i]).entitlement_count
            == new.results@[i].entitlements@.len() by {
            if i < old.results@.len() {
                assert(new.results@[i] == new.results@.drop_last()[i]);
            }
        }
    }
}

/// Whether the key matches one of the filters.
fn key_matches_some(key: &String, filters: &[String]) -> (b: bool)
    ensures
        b == key_matched(strings_view(filters@), key@),
{
    let ghost fv = strings_view(filters@);
    assert(fv.len() == filters@.len());
    let mut f: usize = 0;
    while f < filters.len()
        invariant
            f <= filters@.len(),
            fv == strings_view(filters@),
            forall|g: int| 0 <= g < f ==> !#[trigger] glob_match(fv[g], key@),
        decreases filters@.len() - f,
    {
        if matches_entitlement_filter(key.as_str(), filters[f].as_str()) {
            assert(glob_match(fv[f as int], key@));
            return true;
        }
        f = f + 1;
    }
    false
}

/// The entitlements whose key matches one of the filters.
fn filter_entitlements(m: &EntitlementMap, filters: &[String]) -> (r: EntitlementMap)
    requires
        keys_distinct(m@),
    ensures
        r@ == entries_matching(m@, strings_view(filters@), m@.len() as int),
        keys_distinct(r@),
{
    let mut out = EntitlementMap { entries: Vec::new() };
    let mut i: usize = 0;
    while i < m.entries.len()
        invariant
            i <= m@.len(),
            m@.len() == m.entries@.len(),
            keys_distinct(m@),
            out@ == entries_matching(m@, strings_view(filters@), i as int),
            forall|a: int| #![trigger out@[a]] 0 <= a < out@.len() ==> exists|b: int| 0 <= b < i && #[trigger] m@[b] == out@[a],
            keys_distinct(out@),
        decreases m@.len() - i,
    {
        assert(m@[i as int] == (m.entries@[i as int].0@, m.entries@[i as int].1@));
        if key_matches_some(&m.entries[i].0, filters) {
            let ghost before = out@;
            out.entries.push((m.entries[i].0.clone(), m.entries[i].1.clone_value()));
            assert(out@ =~= before.push(m@[i as int]));
            assert forall|a: int| #![trigger out@[a]] 0 <= a < out@.len() implies exists|b: int| 0 <= b < i + 1 && #[trigger] m@[b] == out@[a] by {
                if a < before.len() {
                    let b = choose|b: int| 0 <= b < i && #[trigger] m@[b] == before[a];
                    assert(m@[b] == out@[a]);
                } else {
                    assert(m@[i as int] == out@[a]);
                }
            }
            assert(keys_distinct(out@)) by {
                assert forall|a: int, b: int| 0 <= a < b < out@.len() implies out@[a].0 != out@[b].0 by {
                    if b == out@.len() - 1 {
                        let ia = choose|ib: int| 0 <= ib < i && #[trigger] m@[ib] == out@[a];
                        assert(m@[ia].0 != m@[i as int].0);
                    }
                }
            }
        }
        i = i + 1;
    }
    out
}

impl PlistValue {
    /// An identical copy.
    pub fn clone_value(&self) -> (r: Self)
        ensures
            r@ == self@,
    {
        match self {
            PlistValue::Bool(b) => PlistValue::Bool(*b),
            PlistValue::Str(s) => PlistValue::Str(s.clone()),
            PlistValue::Int(n) => PlistValue::Int(*n),
        }
    }
}

/// A binary is reported when its entitlements were read, it has at least one, and one
/// of its keys matches a filter (any key, without filters). The summary's `matched`
/// counts the binaries that matched the filters and had entitlements, and the report
/// lists "binaries with entitlements", so a binary without any is never reported,
/// even when there are no filters.
pub open spec fn reported_binary(extracted: Option<Entries>, filters: Seq<Seq<char>>) -> bool {
    extracted matches Some(m) && m.len() > 0 && any_filter_matches(keys_of(m), filters)
}

/// `new` is `old` after counting one examined binary at `path` whose entitlements are
/// `extracted` (`None`: unreadable): it is scanned; unreadable, it is also counted
/// as such; reported, it is matched and its result, with the entitlements that match
/// (all of them without filters), is appended.
pub open spec fn binary_counted(
    old: ScanTally,
    new: ScanTally,
    path: Seq<char>,
    extracted: Option<Entries>,
    filters: Seq<Seq<char>>,
) -> bool {
    let reported = reported_binary(extracted, filters);
    &&& new.scanned == old.scanned + 1
    &&& new.skipped_unreadable == old.skipped_unreadable + (if extracted is None { 1int } else { 0int })
    &&& new.matched == old.matched + (if reported { 1int } else { 0int })
    &&& reported ==> new.results@.len() == old.results@.len() + 1 && new.results@.drop_last() == old.results@ && {
        let res = new.results@.last();
        &&& res.path@ == path
        &&& res.entitlements@ == reported_entries(extracted->0, filters)
        &&& res.entitlement_count == res.entitlements@.len()
        &&& keys_distinct(res.entitlements@)
    }
    &&& !reported ==> new.results@ == old.results@
}

/// The entitlements read, by their view.
pub open spec fn extracted_view(extracted: Option<EntitlementMap>) -> Option<Entries> {
    match extracted {
        Some(m) => Some(m@),
        None => None,
    }
}

/// Counts one examined binary (see `binary_counted`). `extracted` holds its
/// entitlements, or `None` when they could not be read. Returns whether a warning
/// about an unreadable binary is due (not in quiet mode).
pub fn process_binary(
    binary: DiscoveredBinary,
    extracted: Option<EntitlementMap>,
    config: &ScanConfig,
    tally: &mut ScanTally,
) -> (warn: bool)
    requires
        old(tally).scanned < usize::MAX,
        old(tally).matched < usize::MAX,
        old(tally).skipped_unreadable < usize::MAX,
        extracted matches Some(m) ==> keys_distinct(m@),
    ensures
        warn == (extracted is None && !config.quiet_mode),
        binary_counted(
            *old(tally),
            *final(tally),
            binary.path@,
            extracted_view(extracted),
            strings_view(config.filters.entitlements@),
        ),
        tally_consistent(*old(tally)) ==> tally_consistent(*final(tally)),
{
    let ghost ev = extracted_view(extracted);
    tally.scanned = tally.scanned + 1;
    let warn = match extracted {
        None => {
            tally.skipped_unreadable = tally.skipped_unreadable + 1;
            !config.quiet_mode
        },
        Some(map) => {
            let keys = map.keys();
            assert(strings_view(keys@) == keys_of(map@));
            let filters = config.filters.entitlements.as_slice();
            if keys.len() > 0 && entitlements_match_filters(keys.as_slice(), filters) {
                let reported = if filters.len() == 0 {
                    map
                } else {
                    filter_entitlements(&map, filters)
                };
                let count = reported.len();
                tally.matched = tally.matched + 1;
                tally.results.push(
                    BinaryResult { path: binary.path, entitlements: reported, entitlement_count: count },
                );
                assert(tally.results@.drop_last() =~= old(tally).results@);
            }
            false
        },
    };
    proof {
        if tally_consistent(*old(tally)) {
            lemma_binary_counted_keeps_totals(
                *old(tally),
                *tally,
                binary.path@,
                ev,
                strings_view(config.filters.entitlements@),
            );
        }
    }
    warn
}

/// What the scan did with one file.
#[derive(Debug, Clone, Copy, PartialEq, Eq, Structural)]
pub enum FileOutcome {
    /// The scan was interrupted: the file was left alone.
    Interrupted,
    /// Not a binary: passed over.
    Skipped,
    /// A binary: its entitlements were read and it was counted.
    Scanned,
}

/// One file's outcome and what it shows on standard error.
#[derive(Debug)]
pub struct FileReport {
    pub outcome: FileOutcome,
    /// The progress line, when one is due.
    pub progress: Option<String>,
    /// The warning about entitlements that could not be read, when one is due.
    pub warning: Option<String>,
}

/// Whether a file is examined (see `check_single_file`).
pub open spec fn is_examined(mode: Option<u32>, header: Option<Seq<u8>>) -> bool {
    mode matches Some(m) && ((m & 0o111u32) != 0 || (header matches Some(h) && is_mach_o_magic_spec(h)))
}

/// The entitlements read from what `codesign` printed (`Err`: it could not be run or
/// its output read); a property list that cannot be parsed gives none.
pub open spec fn extracted_from(text: Result<String, String>) -> Option<Entries> {
    match text {
        Ok(t) => match parse_plist_spec(t@) {
            Ok(m) => Some(m),
            Err(_) => None,
        },
        Err(_) => None,
    }
}

/// Why the entitlements could not be read.
pub open spec fn extraction_error(text: Result<String, String>) -> Seq<char> {
    match text {
        Ok(t) => match parse_plist_spec(t@) {
            Ok(_) => Seq::empty(),
            Err(e) => plist_error_text(e),
        },
        Err(e) => e@,
    }
}

/// The warning about a binary whose entitlements could not be read.
pub open spec fn warning_text(path: Seq<char>, error: Seq<char>) -> Seq<char> {
    "Warning: Could not extract entitlements from "@ + path + ": "@ + error
}

/// The progress indicator's state, if there is one.
pub open spec fn progress_view(p: Option<ScanProgress>) -> Option<crate::progress::ProgressView> {
    match p {
        Some(q) => Some(q@),
        None => None,
    }
}

fn take_progress_line(progress: &mut Option<ScanProgress>, scanned: bool) -> (r: Option<String>)
    requires
        *old(progress) matches Some(p) ==> p@.scanned_files + p@.skipped_files < usize::MAX,
    ensures
        match *old(progress) {
            Some(p) => progress_view(*final(progress)) == Some(if scanned {
                bump_scanned(p@)
            } else {
                bump_skipped(p@)
            }) && r.deep_view() == (if scanned {
                scanned_output(p@)
            } else {
                skipped_output(p@)
            }),
            None => *final(progress) is None && r is None,
        },
{
    match progress.take() {
        Some(mut p) => {
            let line = if scanned {
                p.increment_scanned()
            } else {
                p.increment_skipped()
            };
            *progress = Some(p);
            line
        },
        None => None,
    }
}

/// One file of a scan, from the values read of it: unless the scan was interrupted,
/// a file that is not a binary (see `is_examined`; `mode` and `header` as for
/// `check_single_file`) is passed over, and a binary is counted (see
/// `binary_counted`) with the entitlements `read_codesign` gives for its path (the
/// text `codesign` printed, empty when it refused the file, or why it could not be
/// run). The progress indicator counts the file and the line to show is returned,
/// with a warning about unreadable entitlements unless the scan is quiet.
pub fn process_single_file<F: FnOnce(String) -> Result<String, String>>(
    interrupted: bool,
    path: &str,
    mode: Option<u32>,
    header: Option<&[u8]>,
    read_codesign: F,
    config: &ScanConfig,
    tally: &mut ScanTally,
    progress: &mut Option<ScanProgress>,
) -> (r: FileReport)
    requires
        old(tally).scanned < usize::MAX,
        old(tally).matched < usize::MAX,
        old(tally).skipped_unreadable < usize::MAX,
        *old(progress) matches Some(p) ==> p@.scanned_files + p@.skipped_files < usize::MAX,
        forall|p: String| call_requires(read_codesign, (p,)),
    ensures
        tally_consistent(*old(tally)) ==> tally_consistent(*final(tally)),
        interrupted ==> r.outcome == FileOutcome::Interrupted && r.progress is None && r.warning is None
            && *final(tally) == *old(tally) && *final(progress) == *old(progress),
        !interrupted ==> ({
            let examined = is_examined(
                mode,
                match header {
                    Some(h) => Some(h@),
                    None => None,
                },
            );
            &&& r.outcome == (if examined { FileOutcome::Scanned } else { FileOutcome::Skipped })
            &&& match *old(progress) {
                Some(p) => progress_view(*final(progress)) == Some(if examined {
                    bump_scanned(p@)
                } else {
                    bump_skipped(p@)
                }) && r.progress.deep_view() == (if examined {
                    scanned_output(p@)
                } else {
                    skipped_output(p@)
                }),
                None => *final(progress) is None && r.progress is None,
            }
            &&& !examined ==> *final(tally) == *old(tally) && r.warning is None
            &&& examined ==> exists|arg: String, text: Result<String, String>|
                arg@ == path@ && call_ensures(read_codesign, (arg,), text) && binary_counted(
                    *old(tally),
                    *final(tally),
                    path@,
                    extracted_from(text),
                    strings_view(config.filters.entitlements@),
                ) && r.warning.deep_view() == (if extracted_from(text) is None && !config.quiet_mode {
                    Some(warning_text(path@, extraction_error(text)))
                } else {
                    None
                })
        }),
{
    if interrupted {
        return FileReport { outcome: FileOutcome::Interrupted, progress: None, warning: None };
    }
    match check_single_file(path, mode, header) {
        None => {
            let line = take_progress_line(progress, false);
            FileReport { outcome: FileOutcome::Skipped, progress: line, warning: None }
        },
        Some(binary) => {
            let line = take_progress_line(progress, true);
            let arg = String::from_str(path);
            let ghost arg_v = arg;
            let text = read_codesign(arg);
            let ghost text_v = text;
            let (extracted, error) = match text {
                Ok(t) => match parse_entitlements_plist(t.as_str()) {
                    Ok(m) => (Some(m), String::new()),
                    Err(e) => (None, String::from_str(e.message())),
                },
                Err(e) => (None, e),
            };
            assert(extracted_view(extracted) == extracted_from(text_v));
            assert(extracted is None ==> error@ == extraction_error(text_v));
            let warn = process_binary(binary, extracted, config, tally);
            let warning = if warn {
                let mut w = String::new();
                push_str(&mut w, "Warning: Could not extract entitlements from ");
                push_str(&mut w, path);
                push_str(&mut w, ": ");
                push_str(&mut w, error.as_str());
                assert(w@ =~= warning_text(path@, extraction_error(text_v)));
                Some(w)
            } else {
                None
            };
            assert(arg_v@ == path@);
            FileReport { outcome: FileOutcome::Scanned, progress: line, warning }
        },
    }
}

/// The result of a scan from its tally: the results and counts, how long it took, and
/// whether it was interrupted (recorded only when it was).
pub fn scan_output(tally: ScanTally, duration_ms: u64, interrupted: bool) -> (out: EntitlementScanOutput)
    ensures
        out.results@ == tally.results@,
        out.summary == (ScanSummary {
            scanned: tally.scanned,
            matched: tally.matched,
            skipped_unreadable: tally.skipped_unreadable,
            duration_ms,
            interrupted: if interrupted { Some(true) } else { None },
        }),
{
    EntitlementScanOutput {
        results: tally.results,
        summary: ScanSummary {
            scanned: tally.scanned,
            matched: tally.matched,
            skipped_unreadable: tally.skipped_unreadable,
            duration_ms,
            interrupted: if interrupted { Some(true) } else { None },
        },
    }
}

/// Every entitlement among the first `n` whose key matches a filter is kept.
pub proof fn lemma_matching_entries_kept(m: Entries, filters: Seq<Seq<char>>, n: int)
    requires
        0 <= n <= m.len(),
    ensures
        forall|j: int| 0 <= j < n && key_matched(filters, #[trigger] m[j].0) ==> entries_matching(m, filters, n).contains(
            m[j],
        ),
    decreases n,
{
    if n > 0 {
        lemma_matching_entries_kept(m, filters, n - 1);
        let rest = entries_matching(m, filters, n - 1);
        let out = entries_matching(m, filters, n);
        assert forall|j: int| 0 <= j < n && key_matched(filters, #[trigger] m[j].0) implies out.contains(m[j]) by {
            if j < n - 1 {
                let k = choose|k: int| 0 <= k < rest.len() && rest[k] == m[j];
                if key_matched(filters, m[n - 1].0) {
                    assert(out[k] == rest[k]);
                }
            } else {
                assert(out[out.len() - 1] == m[n - 1]);
            }
        }
    }
}

/// Every entitlement whose key matches a filter is reported (all of them without
/// filters).
pub proof fn lemma_reported_entries_complete(m: Entries, filters: Seq<Seq<char>>)
    ensures
        forall|j: int| 0 <= j < m.len() && (filters.len() == 0 || key_matched(filters, #[trigger] m[j].0))
            ==> reported_entries(m, filters).contains(m[j]),
{
    lemma_matching_entries_kept(m, filters, m.len() as int);
    assert forall|j: int| 0 <= j < m.len() && (filters.len() == 0 || key_matched(filters, #[trigger] m[j].0))
        implies reported_entries(m, filters).contains(m[j]) by {
        if filters.len() == 0 {
            assert(reported_entries(m, filters)[j] == m[j]);
        }
    }
}

/// Every entitlement reported under filters has a key that matches one of them.
pub proof fn lemma_reported_entries_match(m: Entries, filters: Seq<Seq<char>>, n: int)
    requires
        0 <= n <= m.len(),
    ensures
        forall|a: int| 0 <= a < entries_matching(m, filters, n).len() ==> key_matched(
            filters,
            #[trigger] entries_matching(m, filters, n)[a].0,
        ),
    decreases n,
{
    if n > 0 {
        lemma_reported_entries_match(m, filters, n - 1);
        let rest = entries_matching(m, filters, n - 1);
        let out = entries_matching(m, filters, n);
        assert forall|a: int| 0 <= a < out.len() implies key_matched(filters, #[trigger] out[a].0) by {
            if a < rest.len() {
                assert(out[a] == rest[a]);
            }
        }
    }
}

} // verus!
