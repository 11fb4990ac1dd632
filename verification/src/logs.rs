//! Reading the daemon's logs back: the `log show` command lines, the lines of its
//! output, and how each line is shown.

use vstd::prelude::*;
use vstd::string::StringExecFns;
use crate::pattern_matcher::strings_view;
use crate::text::{chars_of, push_str, string_of, trim, trim_chars};

verus! {

broadcast use vstd::string::group_string_axioms;

/// A line that ended with a line feed loses the carriage return before it.
pub open spec fn strip_cr(line: Seq<char>) -> Seq<char> {
    if line.len() > 0 && line.last() == '\r' {
        line.drop_last()
    } else {
        line
    }
}

/// The lines of `b[i..]` as `str::lines` gives them, where `cur` is the line read so
/// far: lines end at each `\n` (dropping a `\r` before it); a last line without a
/// line feed is kept as it is unless it is empty.
pub open spec fn lines_from(b: Seq<char>, i: int, cur: Seq<char>) -> Seq<Seq<char>>
    decreases b.len() - i,
{
    if i < 0 || i >= b.len() {
        if cur.len() == 0 {
            Seq::empty()
        } else {
            seq![cur]
        }
    } else if b[i] == '\n' {
        seq![strip_cr(cur)] + lines_from(b, i + 1, Seq::empty())
    } else {
        lines_from(b, i + 1, cur.push(b[i]))
    }
}

/// The lines of a text, as `str::lines` gives them.
pub open spec fn lines_spec(text: Seq<char>) -> Seq<Seq<char>> {
    lines_from(text, 0, Seq::empty())
}

/// The lines that hold more than white space, in order.
pub open spec fn nonblank_spec(lines: Seq<Seq<char>>) -> Seq<Seq<char>>
    decreases lines.len(),
{
    if lines.len() == 0 {
        Seq::empty()
    } else {
        let rest = nonblank_spec(lines.drop_last());
        if trim(lines.last()).len() > 0 {
            rest.push(lines.last())
        } else {
            rest
        }
    }
}

/// No line kept by `nonblank_spec` is blank, and each comes from the input.
pub proof fn lemma_nonblank_lines_are_not_blank(lines: Seq<Seq<char>>)
    ensures
        forall|i: int| 0 <= i < nonblank_spec(lines).len() ==> trim(#[trigger] nonblank_spec(lines)[i]).len() > 0
            && lines.contains(nonblank_spec(lines)[i]),
    decreases lines.len(),
{
    if lines.len() > 0 {
        let d = lines.drop_last();
        lemma_nonblank_lines_are_not_blank(d);
        let rest = nonblank_spec(d);
        let out = nonblank_spec(lines);
        assert forall|i: int| 0 <= i < out.len() implies trim(#[trigger] out[i]).len() > 0 && lines.contains(out[i]) by {
            if i < rest.len() {
                assert(out[i] == rest[i]);
                let j = choose|j: int| 0 <= j < d.len() && d[j] == rest[i];
                assert(lines[j] == d[j]);
            } else {
                assert(out[i] == lines.last());
                assert(lines[lines.len() - 1] == lines.last());
            }
        }
    }
}

fn push_line(out: &mut Vec<String>, cur: &[char])
    ensures
        strings_view(final(out)@) == strings_view(old(out)@).push(strip_cr(cur@)),
{
    let n = cur.len();
    let line = if n > 0 && cur[n - 1] == '\r' {
        let mut v: Vec<char> = Vec::new();
        let mut k: usize = 0;
        while k < n - 1
            invariant
                n == cur@.len(),
                n > 0,
                k <= n - 1,
                v@ == cur@.take(k as int),
            decreases n - 1 - k,
        {
            v.push(cur[k]);
            assert(cur@.take(k + 1) =~= cur@.take(k as int).push(cur@[k as int]));
            k = k + 1;
        }
        assert(v@ =~= cur@.drop_last());
        string_of(v.as_slice())
    } else {
        string_of(cur)
    };
    let ghost before = strings_view(out@);
    out.push(line);
    assert(strings_view(out@) =~= before.push(strip_cr(cur@)));
}

/// The lines of a command's output (see `lines_spec`).
pub fn output_lines(text: &str) -> (r: Vec<String>)
    ensures
        strings_view(r@) == lines_spec(text@),
{
    let b = chars_of(text);
    let mut r: Vec<String> = Vec::new();
    let mut cur: Vec<char> = Vec::new();
    let mut i: usize = 0;
    assert(strings_view(r@) + lines_spec(text@) =~= lines_spec(text@));
    while i < b.len()
        invariant
            b@ == text@,
            i <= b@.len(),
            strings_view(r@) + lines_from(b@, i as int, cur@) == lines_spec(text@),
        decreases b@.len() - i,
    {
        if b[i] == '\n' {
            let ghost before = strings_view(r@);
            push_line(&mut r, cur.as_slice());
            assert(before + (seq![strip_cr(cur@)] + lines_from(b@, i + 1, Seq::empty())) =~= strings_view(r@)
                + lines_from(b@, i + 1, Seq::empty()));
            cur = Vec::new();
        } else {
            cur.push(b[i]);
        }
        i = i + 1;
    }
    if cur.len() > 0 {
        let ghost before = strings_view(r@);
        let line = string_of(cur.as_slice());
        r.push(line);
        assert(strings_view(r@) =~= before + seq![cur@]);
    } else {
        assert(strings_view(r@) + Seq::<Seq<char>>::empty() =~= strings_view(r@));
    }
    r
}

/// The lines of a command's output that hold more than white space, in order.
pub fn nonblank_lines(text: &str) -> (r: Vec<String>)
    ensures
        strings_view(r@) == nonblank_spec(lines_spec(text@)),
{
    let lines = output_lines(text);
    let ghost ls = strings_view(lines@);
    let mut r: Vec<String> = Vec::new();
    let mut i: usize = 0;
    while i < lines.len()
        invariant
            i <= lines@.len(),
            ls == strings_view(lines@),
            ls.len() == lines@.len(),
            strings_view(r@) == nonblank_spec(ls.take(i as int)),
        decreases lines@.len() - i,
    {
        assert(ls.take(i + 1).drop_last() =~= ls.take(i as int));
        assert(ls.take(i + 1).last() == lines@[i as int]@);
        let t = trim_chars(chars_of(lines[i].as_str()).as_slice());
        if t.len() > 0 {
            let ghost before = strings_view(r@);
            r.push(lines[i].clone());
            assert(strings_view(r@) =~= before.push(lines@[i as int]@));
        }
        i = i + 1;
    }
    assert(ls.take(ls.len() as int) =~= ls);
    r
}

/// The arguments of `log show` that read the last `since` of the logs of `subsystem`.
pub open spec fn log_show_args_spec(subsystem: Seq<char>, since: Seq<char>) -> Seq<Seq<char>> {
    seq![
        "show"@,
        "--predicate"@,
        "subsystem == \""@ + subsystem + "\""@,
        "--last"@,
        since,
        "--style"@,
        "compact"@,
    ]
}

/// The arguments of `log show` that read the last `since` of the logs of `subsystem`.
pub fn log_show_args(subsystem: &str, since: &str) -> (r: Vec<String>)
    ensures
        strings_view(r@) == log_show_args_spec(subsystem@, since@),
{
    let mut predicate = String::new();
    push_str(&mut predicate, "subsystem == \"");
    push_str(&mut predicate, subsystem);
    push_str(&mut predicate, "\"");
    let mut r: Vec<String> = Vec::new();
    r.push(String::from_str("show"));
    r.push(String::from_str("--predicate"));
    r.push(predicate);
    r.push(String::from_str("--last"));
    r.push(String::from_str(since));
    r.push(String::from_str("--style"));
    r.push(String::from_str("compact"));
    assert(strings_view(r@) =~= log_show_args_spec(subsystem@, since@));
    r
}

/// The arguments of `log show` that read the logs of one subsystem and category:
/// the last `since` of them when given, and following new ones when `follow`.
pub open spec fn retrieval_args_spec(
    subsystem: Seq<char>,
    category: Seq<char>,
    since: Option<Seq<char>>,
    follow: bool,
) -> Seq<Seq<char>> {
    seq![
        "show"@,
        "--predicate"@,
        "subsystem == '"@ + subsystem + "' AND category == '"@ + category + "'"@,
        "--style"@,
        "compact"@,
    ] + (match since {
        Some(t) => seq!["--last"@, t],
        None => Seq::empty(),
    }) + (if follow {
        seq!["--follow"@]
    } else {
        Seq::empty()
    })
}

/// The arguments of `log show` for one subsystem and category (see `retrieval_args_spec`).
pub fn log_retrieval_args(subsystem: &str, category: &str, since: Option<&str>, follow: bool) -> (r: Vec<
    String,
>)
    ensures
        strings_view(r@) == retrieval_args_spec(
            subsystem@,
            category@,
            match since {
                Some(t) => Some(t@),
                None => None,
            },
            follow,
        ),
{
    let mut predicate = String::new();
    push_str(&mut predicate, "subsystem == '");
    push_str(&mut predicate, subsystem);
    push_str(&mut predicate, "' AND category == '");
    push_str(&mut predicate, category);
    push_str(&mut predicate, "'");
    let mut r: Vec<String> = Vec::new();
    r.push(String::from_str("show"));
    r.push(String::from_str("--predicate"));
    r.push(predicate);
    r.push(String::from_str("--style"));
    r.push(String::from_str("compact"));
    let ghost base = strings_view(r@);
    match since {
        Some(t) => {
            r.push(String::from_str("--last"));
            r.push(String::from_str(t));
        },
        None => {},
    }
    let ghost mid = strings_view(r@);
    if follow {
        r.push(String::from_str("--follow"));
    }
    assert(strings_view(r@) =~= retrieval_args_spec(
        subsystem@,
        category@,
        match since {
            Some(t) => Some(t@),
            None => None,
        },
        follow,
    ));
    r
}

/// How the logs are shown.
#[derive(Debug, Clone, Copy, PartialEq, Eq, Structural)]
pub enum LogFormat {
    /// Each line as it is.
    Json,
    /// Each line as `[timestamp] message` when it is a JSON record.
    Human,
}

/// The log format named `format`: `json` or `human`; anything else is refused
/// with the message the command prints.
pub fn parse_log_format(format: &str) -> (r: Result<LogFormat, String>)
    ensures
        format@ == "json"@ ==> r == Ok::<LogFormat, String>(LogFormat::Json),
        format@ == "human"@ ==> r == Ok::<LogFormat, String>(LogFormat::Human),
        format@ != "json"@ && format@ != "human"@ ==> (r matches Err(m) && m@ == "Invalid format: '"@ + format@
            + "'. Use 'human' or 'json'"@),
{
    let f = chars_of(format);
    proof {
        reveal_strlit("json");
        reveal_strlit("human");
    }
    if f.len() == 4 && f[0] == 'j' && f[1] == 's' && f[2] == 'o' && f[3] == 'n' {
        assert(format@ =~= "json"@);
        Ok(LogFormat::Json)
    } else if f.len() == 5 && f[0] == 'h' && f[1] == 'u' && f[2] == 'm' && f[3] == 'a' && f[4] == 'n' {
        assert(format@ =~= "human"@);
        Ok(LogFormat::Human)
    } else {
        assert(format@ != "json"@ && format@ != "human"@) by {
            if format@ == "json"@ {
                assert(f@.len() == 4 && f@[0] == 'j' && f@[1] == 's' && f@[2] == 'o' && f@[3] == 'n');
            }
            if format@ == "human"@ {
                assert(f@.len() == 5 && f@[0] == 'h' && f@[1] == 'u' && f@[2] == 'm' && f@[3] == 'a' && f@[4]
                    == 'n');
            }
        }
        let mut m = String::new();
        push_str(&mut m, "Invalid format: '");
        push_str(&mut m, format);
        push_str(&mut m, "'. Use 'human' or 'json'");
        Err(m)
    }
}

/// What `serde_json` reads of field `key` in the text `text`: `None` when the text is
/// not a JSON document; `Some(None)` when the document has no field `key` (or is not
/// an object); `Some(Some(None))` when the field is not a string; else its string.
pub uninterp spec fn json_string_field(text: Seq<char>, key: Seq<char>) -> Option<Option<Option<Seq<char>>>>;

/// Reads field `key` of the JSON document `text`: `serde_json::from_str` into a
/// `serde_json::Value`, then `Value::get` and `Value::as_str`. The contract only
/// names the result (`json_string_field`); what serde_json accepts as JSON is not
/// restated.
#[verifier::external_body]
fn read_json_string_field(text: &str, key: &str) -> (r: Option<Option<Option<String>>>)
    ensures
        r.deep_view() == json_string_field(text@, key@),
{
    match serde_json::from_str::<serde_json::Value>(text) {
        Ok(v) => match v.get(key) {
            Some(f) => Some(Some(f.as_str().map(String::from))),
            None => Some(None),
        },
        Err(_) => None,
    }
}

/// How a log line is shown in the human format, given what was read of its
/// `timestamp` and `message` fields (see `json_string_field`): a JSON record shows
/// `[timestamp] ` when it has a timestamp (`unknown` when that is not a string), then
/// its message when that is a string, else the line; other lines show as they are.
pub open spec fn human_log_text(
    line: Seq<char>,
    timestamp: Option<Option<Option<Seq<char>>>>,
    message: Option<Option<Option<Seq<char>>>>,
) -> Seq<char> {
    match timestamp {
        None => line,
        Some(ts) => (match ts {
            Some(Some(t)) => "["@ + t + "] "@,
            Some(None) => "[unknown] "@,
            None => Seq::empty(),
        }) + (match message {
            Some(Some(Some(m))) => m,
            _ => line,
        }),
    }
}

/// Shows a log line in the human format from what was read of its fields (see
/// `human_log_text`).
pub fn render_log_line(
    line: &str,
    timestamp: Option<Option<Option<String>>>,
    message: Option<Option<Option<String>>>,
) -> (r: String)
    ensures
        r@ == human_log_text(line@, timestamp.deep_view(), message.deep_view()),
{
    match timestamp {
        None => String::from_str(line),
        Some(ts) => {
            let mut r = String::new();
            match ts {
                Some(Some(t)) => {
                    push_str(&mut r, "[");
                    push_str(&mut r, t.as_str());
                    push_str(&mut r, "] ");
                },
                Some(None) => push_str(&mut r, "[unknown] "),
                None => {},
            }
            match message {
                Some(Some(Some(m))) => push_str(&mut r, m.as_str()),
                _ => push_str(&mut r, line),
            }
            r
        },
    }
}

/// Shows a log line in the human format (see `human_log_text`), reading its fields
/// with serde_json.
pub fn human_log_line(line: &str) -> (r: String)
    ensures
        r@ == human_log_text(line@, json_string_field(line@, "timestamp"@), json_string_field(line@, "message"@)),
{
    let timestamp = read_json_string_field(line, "timestamp");
    let message = read_json_string_field(line, "message");
    render_log_line(line, timestamp, message)
}

} // verus!
