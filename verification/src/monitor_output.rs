//! What the interactive monitor prints: its banner and each detected process.

use vstd::prelude::*;
use crate::models::{MonitoredProcess, PollingConfiguration};
use crate::pattern_matcher::strings_view;
use crate::text::{decimal, push_decimal, push_str};

verus! {

/// The texts joined with `sep` between each two.
pub open spec fn join(ss: Seq<Seq<char>>, sep: Seq<char>) -> Seq<char>
    decreases ss.len(),
{
    if ss.len() == 0 {
        Seq::empty()
    } else if ss.len() == 1 {
        ss[0]
    } else {
        join(ss.drop_last(), sep) + sep + ss.last()
    }
}

/// Joins the texts with `sep` between each two.
pub fn join_strings(ss: &[String], sep: &str) -> (r: String)
    ensures
        r@ == join(strings_view(ss@), sep@),
{
    let ghost v = strings_view(ss@);
    let mut r = String::new();
    let mut i: usize = 0;
    while i < ss.len()
        invariant
            i <= ss@.len(),
            v == strings_view(ss@),
            v.len() == ss@.len(),
            r@ == join(v.take(i as int), sep@),
        decreases ss@.len() - i,
    {
        assert(v.take(i + 1).drop_last() =~= v.take(i as int));
        assert(v.take(i + 1).last() == ss@[i as int]@);
        if i > 0 {
            push_str(&mut r, sep);
        } else {
            assert(r@ =~= Seq::<char>::empty());
        }
        push_str(&mut r, ss[i].as_str());
        i = i + 1;
    }
    assert(v.take(v.len() as int) =~= v);
    r
}

/// The banner of the monitor; `interval` is the polling interval in seconds as the
/// caller shows it (one decimal).
pub open spec fn banner_text(config: PollingConfiguration, interval: Seq<char>) -> Seq<char> {
    "Starting process monitoring (interval: "@ + interval + "s)...\n"@ + (if config.path_filters@.len() > 0 {
        "Monitoring "@ + join(strings_view(config.path_filters@), ", "@) + " for processes\n"@
    } else {
        Seq::empty()
    }) + (if config.entitlement_filters@.len() > 0 {
        "Monitoring for processes with entitlement: "@ + join(strings_view(config.entitlement_filters@), ", "@)
            + "\n"@
    } else {
        Seq::empty()
    }) + "Press Ctrl+C to stop monitoring.\n\n"@
}

/// The banner the monitor prints when it starts (nothing in quiet mode): the
/// interval, the paths and entitlement filters watched, and how to stop.
pub fn monitoring_banner(config: &PollingConfiguration, interval: &str) -> (r: Option<String>)
    ensures
        config.quiet_mode ==> r is None,
        !config.quiet_mode ==> (r matches Some(t) && t@ == banner_text(*config, interval@)),
{
    if config.quiet_mode {
        return None;
    }
    let mut t = String::new();
    push_str(&mut t, "Starting process monitoring (interval: ");
    push_str(&mut t, interval);
    push_str(&mut t, "s)...\n");
    let ghost a = t@;
    if config.path_filters.len() > 0 {
        let paths = join_strings(config.path_filters.as_slice(), ", ");
        push_str(&mut t, "Monitoring ");
        push_str(&mut t, paths.as_str());
        push_str(&mut t, " for processes\n");
    }
    let ghost b = t@;
    if config.entitlement_filters.len() > 0 {
        let filters = join_strings(config.entitlement_filters.as_slice(), ", ");
        push_str(&mut t, "Monitoring for processes with entitlement: ");
        push_str(&mut t, filters.as_str());
        push_str(&mut t, "\n");
    }
    let ghost c = t@;
    push_str(&mut t, "Press Ctrl+C to stop monitoring.\n\n");
    assert(b =~= a + (if config.path_filters@.len() > 0 {
        "Monitoring "@ + join(strings_view(config.path_filters@), ", "@) + " for processes\n"@
    } else {
        Seq::empty()
    }));
    assert(c =~= b + (if config.entitlement_filters@.len() > 0 {
        "Monitoring for processes with entitlement: "@ + join(strings_view(config.entitlement_filters@), ", "@)
            + "\n"@
    } else {
        Seq::empty()
    }));
    assert(t@ =~= banner_text(*config, interval@));
    Some(t)
}

/// The lines of a detected process; `timestamp` is its discovery time as the caller
/// shows it.
pub open spec fn detection_text(p: MonitoredProcess, timestamp: Seq<char>) -> Seq<char> {
    "["@ + timestamp + "] New process detected: "@ + p.name@ + " (PID: "@ + decimal(p.pid as nat) + ")\n"@
        + "  Path: "@ + p.executable_path@ + "\n"@ + (if p.entitlements@.len() == 0 {
        "  Entitlements: (none)\n"@
    } else {
        "  Entitlements: "@ + join(strings_view(p.entitlements@), ", "@) + "\n"@
    }) + "\n"@
}

/// How the monitor shows a detected process: time, name and id, executable, and
/// entitlements, then a blank line.
pub fn detection_lines(process: &MonitoredProcess, timestamp: &str) -> (r: String)
    ensures
        r@ == detection_text(*process, timestamp@),
{
    let mut t = String::new();
    push_str(&mut t, "[");
    push_str(&mut t, timestamp);
    push_str(&mut t, "] New process detected: ");
    push_str(&mut t, process.name.as_str());
    push_str(&mut t, " (PID: ");
    push_decimal(&mut t, process.pid as u64);
    push_str(&mut t, ")\n");
    push_str(&mut t, "  Path: ");
    push_str(&mut t, process.executable_path.as_str());
    push_str(&mut t, "\n");
    let ghost a = t@;
    if process.entitlements.len() == 0 {
        push_str(&mut t, "  Entitlements: (none)\n");
    } else {
        let ents = join_strings(process.entitlements.as_slice(), ", ");
        push_str(&mut t, "  Entitlements: ");
        push_str(&mut t, ents.as_str());
        push_str(&mut t, "\n");
    }
    let ghost b = t@;
    push_str(&mut t, "\n");
    assert(b =~= a + (if process.entitlements@.len() == 0 {
        "  Entitlements: (none)\n"@
    } else {
        "  Entitlements: "@ + join(strings_view(process.entitlements@), ", "@) + "\n"@
    }));
    assert(t@ =~= detection_text(*process, timestamp@));
    t
}

} // verus!
