//! The LaunchD service definition of the daemon.

use vstd::prelude::*;
use vstd::string::StringExecFns;
use crate::constants::LAUNCHD_SERVICE_NAME;
use crate::text::push_str;

verus! {

broadcast use vstd::string::group_string_axioms;

/// A LaunchD property list for the daemon.
#[derive(Debug, Clone)]
pub struct LaunchDPlist {
    /// Service label (reverse DNS).
    pub label: String,
    /// Executable and its arguments.
    pub program_arguments: Vec<String>,
    /// Start when loaded.
    pub run_at_load: bool,
    /// Restart when the process exits.
    pub keep_alive: bool,
    /// Working directory.
    pub working_directory: Option<String>,
    /// File for standard output.
    pub standard_out_path: Option<String>,
    /// File for standard error.
    pub standard_error_path: Option<String>,
    /// Environment variables, in order.
    pub environment_variables: Option<Vec<(String, String)>>,
}

/// No variable is set twice.
pub open spec fn env_names_distinct(vars: Seq<(String, String)>) -> bool {
    forall|a: int, b: int| 0 <= a < b < vars.len() ==> (#[trigger] vars[a]).0@ != (#[trigger] vars[b]).0@
}

/// `\t<string>{s}</string>\n` (with `indent` tabs).
pub open spec fn string_line(indent: Seq<char>, s: Seq<char>) -> Seq<char> {
    indent + "<string>"@ + s + "</string>\n"@
}

/// `\t<key>{k}</key>\n` (with `indent` tabs).
pub open spec fn key_line(indent: Seq<char>, k: Seq<char>) -> Seq<char> {
    indent + "<key>"@ + k + "</key>\n"@
}

/// The `<string>` lines of the first `n` program arguments.
pub open spec fn argument_lines(args: Seq<String>, n: int) -> Seq<char>
    decreases n,
{
    if n <= 0 {
        Seq::empty()
    } else {
        argument_lines(args, n - 1) + string_line("\t\t"@, args[n - 1]@)
    }
}

/// The key and value lines of the first `n` environment variables.
pub open spec fn environment_lines(vars: Seq<(String, String)>, n: int) -> Seq<char>
    decreases n,
{
    if n <= 0 {
        Seq::empty()
    } else {
        environment_lines(vars, n - 1) + key_line("\t\t"@, vars[n - 1].0@) + string_line(
            "\t\t"@,
            vars[n - 1].1@,
        )
    }
}

/// A `\t<key>` line and a `\t<string>` line when the value is there.
pub open spec fn optional_entry(key: Seq<char>, value: Option<String>) -> Seq<char> {
    match value {
        Some(v) => key_line("\t"@, key) + string_line("\t"@, v@),
        None => Seq::empty(),
    }
}

/// `\t<true/>\n` or `\t<false/>\n`.
pub open spec fn bool_line(b: bool) -> Seq<char> {
    if b {
        "\t<true/>\n"@
    } else {
        "\t<false/>\n"@
    }
}

/// The environment section: present only for a non-empty set of variables.
pub open spec fn environment_section(vars: Option<Vec<(String, String)>>) -> Seq<char> {
    match vars {
        Some(v) => if v@.len() > 0 {
            key_line("\t"@, "EnvironmentVariables"@) + "\t<dict>\n"@ + environment_lines(v@, v@.len() as int)
                + "\t</dict>\n"@
        } else {
            Seq::empty()
        },
        None => Seq::empty(),
    }
}

/// The XML header of a property list.
pub open spec fn plist_header() -> Seq<char> {
    "<?xml version=\"1.0\" encoding=\"UTF-8\"?>\n"@
        + "<!DOCTYPE plist PUBLIC \"-//Apple//DTD PLIST 1.0//EN\" \"http://www.apple.com/DTDs/PropertyList-1.0.dtd\">\n"@
        + "<plist version=\"1.0\">\n"@ + "<dict>\n"@
}

/// The property list text for `p`.
pub open spec fn plist_text(p: LaunchDPlist) -> Seq<char> {
    plist_header() + key_line("\t"@, "Label"@) + string_line("\t"@, p.label@) + key_line(
        "\t"@,
        "ProgramArguments"@,
    ) + "\t<array>\n"@ + argument_lines(p.program_arguments@, p.program_arguments@.len() as int)
        + "\t</array>\n"@ + key_line("\t"@, "RunAtLoad"@) + bool_line(p.run_at_load) + key_line(
        "\t"@,
        "KeepAlive"@,
    ) + bool_line(p.keep_alive) + optional_entry("WorkingDirectory"@, p.working_directory)
        + optional_entry("StandardOutPath"@, p.standard_out_path) + optional_entry(
        "StandardErrorPath"@,
        p.standard_error_path,
    ) + environment_section(p.environment_variables) + "</dict>\n"@ + "</plist>\n"@
}

/// The property list has the `KeepAlive` key followed by `<true/>` exactly when the
/// service is kept alive, `<false/>` otherwise (and likewise `RunAtLoad`).
pub proof fn lemma_plist_states_keep_alive_and_run_at_load(p: LaunchDPlist)
    ensures
        crate::text::contains(
            plist_text(p),
            key_line("\t"@, "KeepAlive"@) + (if p.keep_alive {
                "\t<true/>\n"@
            } else {
                "\t<false/>\n"@
            }),
        ),
        crate::text::contains(
            plist_text(p),
            key_line("\t"@, "RunAtLoad"@) + (if p.run_at_load {
                "\t<true/>\n"@
            } else {
                "\t<false/>\n"@
            }),
        ),
{
    let t = plist_text(p);
    let pre_run = plist_header() + key_line("\t"@, "Label"@) + string_line("\t"@, p.label@) + key_line(
        "\t"@,
        "ProgramArguments"@,
    ) + "\t<array>\n"@ + argument_lines(p.program_arguments@, p.program_arguments@.len() as int)
        + "\t</array>\n"@;
    let run = key_line("\t"@, "RunAtLoad"@) + (if p.run_at_load {
        "\t<true/>\n"@
    } else {
        "\t<false/>\n"@
    });
    let keep = key_line("\t"@, "KeepAlive"@) + (if p.keep_alive {
        "\t<true/>\n"@
    } else {
        "\t<false/>\n"@
    });
    let rest = optional_entry("WorkingDirectory"@, p.working_directory) + optional_entry(
        "StandardOutPath"@,
        p.standard_out_path,
    ) + optional_entry("StandardErrorPath"@, p.standard_error_path) + environment_section(
        p.environment_variables,
    ) + "</dict>\n"@ + "</plist>\n"@;
    assert(t =~= pre_run + run + keep + rest);
    let a = pre_run.len() as int;
    let b = a + run.len();
    assert(t.subrange(a, a + run.len()) =~= run);
    assert(crate::text::occurs_at(t, run, a));
    assert(t.subrange(b, b + keep.len()) =~= keep);
    assert(crate::text::occurs_at(t, keep, b));
}

fn push_string_line(s: &mut String, indent: &str, v: &str)
    ensures
        final(s)@ == old(s)@ + string_line(indent@, v@),
{
    push_str(s, indent);
    push_str(s, "<string>");
    push_str(s, v);
    push_str(s, "</string>\n");
    assert(final(s)@ =~= old(s)@ + string_line(indent@, v@));
}

fn push_key_line(s: &mut String, indent: &str, k: &str)
    ensures
        final(s)@ == old(s)@ + key_line(indent@, k@),
{
    push_str(s, indent);
    push_str(s, "<key>");
    push_str(s, k);
    push_str(s, "</key>\n");
    assert(final(s)@ =~= old(s)@ + key_line(indent@, k@));
}

fn push_optional_entry(s: &mut String, key: &str, value: &Option<String>)
    ensures
        final(s)@ == old(s)@ + optional_entry(key@, *value),
{
    match value {
        Some(v) => {
            push_key_line(s, "\t", key);
            push_string_line(s, "\t", v.as_str());
            assert(final(s)@ =~= old(s)@ + optional_entry(key@, *value));
        },
        None => {
            assert(final(s)@ =~= old(s)@ + optional_entry(key@, *value));
        },
    }
}

fn push_bool_line(s: &mut String, b: bool)
    ensures
        final(s)@ == old(s)@ + bool_line(b),
{
    if b {
        push_str(s, "\t<true/>\n");
    } else {
        push_str(s, "\t<false/>\n");
    }
}

impl LaunchDPlist {
    /// The default service definition for the daemon executable at `daemon_path`.
    pub fn new(daemon_path: &str) -> (p: Self)
        ensures
            p.label@ == LAUNCHD_SERVICE_NAME@,
            p.program_arguments@.len() == 2,
            p.program_arguments@[0]@ == daemon_path@,
            p.program_arguments@[1]@ == "--daemon"@,
            p.run_at_load,
            p.keep_alive,
            p.working_directory matches Some(w) && w@ == "/var/run/listent"@,
            p.standard_out_path matches Some(o) && o@ == "/var/log/listent/daemon.log"@,
            p.standard_error_path matches Some(e) && e@ == "/var/log/listent/daemon.log"@,
            p.environment_variables matches Some(env) && env@.len() == 2 && env@[0].0@ == "PATH"@
                && env@[0].1@ == "/usr/bin:/bin:/usr/sbin:/sbin"@ && env@[1].0@ == "LISTENT_DAEMON_CHILD"@
                && env@[1].1@ == "1"@ && env_names_distinct(env@),
    {
        proof {
            reveal_strlit("PATH");
            reveal_strlit("LISTENT_DAEMON_CHILD");
        }
        let mut program_arguments: Vec<String> = Vec::new();
        program_arguments.push(String::from_str(daemon_path));
        program_arguments.push(String::from_str("--daemon"));
        let mut env: Vec<(String, String)> = Vec::new();
        env.push((String::from_str("PATH"), String::from_str("/usr/bin:/bin:/usr/sbin:/sbin")));
        env.push((String::from_str("LISTENT_DAEMON_CHILD"), String::from_str("1")));
        LaunchDPlist {
            label: String::from_str(LAUNCHD_SERVICE_NAME),
            program_arguments,
            run_at_load: true,
            keep_alive: true,
            working_directory: Some(String::from_str("/var/run/listent")),
            standard_out_path: Some(String::from_str("/var/log/listent/daemon.log")),
            standard_error_path: Some(String::from_str("/var/log/listent/daemon.log")),
            environment_variables: Some(env),
        }
    }

    /// The property list XML of this service definition.
    pub fn generate_plist(&self) -> (s: String)
        ensures
            s@ == plist_text(*self),
    {
        let mut s = String::new();
        push_str(&mut s, "<?xml version=\"1.0\" encoding=\"UTF-8\"?>\n");
        push_str(
            &mut s,
            "<!DOCTYPE plist PUBLIC \"-//Apple//DTD PLIST 1.0//EN\" \"http://www.apple.com/DTDs/PropertyList-1.0.dtd\">\n",
        );
        push_str(&mut s, "<plist version=\"1.0\">\n");
        push_str(&mut s, "<dict>\n");
        let ghost after_header = s@;
        assert(after_header =~= plist_header());
        push_key_line(&mut s, "\t", "Label");
        push_string_line(&mut s, "\t", self.label.as_str());
        push_key_line(&mut s, "\t", "ProgramArguments");
        push_str(&mut s, "\t<array>\n");
        let ghost before_args = s@;
        let mut i: usize = 0;
        while i < self.program_arguments.len()
            invariant
                i <= self.program_arguments@.len(),
                s@ == before_args + argument_lines(self.program_arguments@, i as int),
            decreases self.program_arguments@.len() - i,
        {
            push_string_line(&mut s, "\t\t", self.program_arguments[i].as_str());
            assert(s@ =~= before_args + argument_lines(self.program_arguments@, i + 1));
            i = i + 1;
        }
        push_str(&mut s, "\t</array>\n");
        push_key_line(&mut s, "\t", "RunAtLoad");
        push_bool_line(&mut s, self.run_at_load);
        push_key_line(&mut s, "\t", "KeepAlive");
        push_bool_line(&mut s, self.keep_alive);
        push_optional_entry(&mut s, "WorkingDirectory", &self.working_directory);
        push_optional_entry(&mut s, "StandardOutPath", &self.standard_out_path);
        push_optional_entry(&mut s, "StandardErrorPath", &self.standard_error_path);
        let ghost before_env = s@;
        match &self.environment_variables {
            Some(vars) => {
                if vars.len() > 0 {
                    push_key_line(&mut s, "\t", "EnvironmentVariables");
                    push_str(&mut s, "\t<dict>\n");
                    let ghost before_vars = s@;
                    let mut k: usize = 0;
                    while k < vars.len()
                        invariant
                            k <= vars@.len(),
                            s@ == before_vars + environment_lines(vars@, k as int),
                        decreases vars@.len() - k,
                    {
                        push_key_line(&mut s, "\t\t", vars[k].0.as_str());
                        push_string_line(&mut s, "\t\t", vars[k].1.as_str());
                        assert(s@ =~= before_vars + environment_lines(vars@, k + 1));
                        k = k + 1;
                    }
                    push_str(&mut s, "\t</dict>\n");
                }
            },
            None => {},
        }
        assert(s@ =~= before_env + environment_section(self.environment_variables));
        push_str(&mut s, "</dict>\n");
        push_str(&mut s, "</plist>\n");
        assert(s@ =~= plist_text(*self));
        s
    }
}

} // verus!
