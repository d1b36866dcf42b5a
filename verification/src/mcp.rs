//! The agent-facing surface: the parameters of its operations and the
//! redaction of paths in its answers.

use crate::order::{key_views, sort_by_key, sorted_order, KeyView, SortKey};
use crate::scanner::{package_views, PackageMetadata, PackageView};
use crate::text::{
    append, append_str, chars_of, contains_sub, copy, decimal, decimal_of, file_name,
    file_name_of, find_char,
    find_sub_of, first_index_of, has_char, has_prefix, lemma_find_sub, lowercase, lowercase_of,
    opt_str_view, replace_char, replace_char_of, same, signed_decimal, signed_decimal_of, slice,
    split_sub, split_sub_of, starts_with, string_of, views, CharClass,
};
use crate::types::EnvName;
use vstd::prelude::*;

verus! {

/// What is shown of a path whose last component is `file_name`.
pub open spec fn redacted(file_name: Option<Seq<char>>) -> Seq<char> {
    match file_name {
        Some(n) => "~/…/"@ + n,
        None => "~/…"@,
    }
}

/// What is shown of a path in an answer, given the last component of the
/// path: `~/…/name`, or `~/…` for a path without one.
pub fn redact_file_name(file_name: Option<&str>) -> (r: String)
    ensures
        r@ == redacted(
            match file_name {
                Some(n) => Some(n@),
                None => None,
            },
        ),
{
    match file_name {
        Some(n) => {
            let mut out = chars_of("~/…/");
            append_str(&mut out, n);
            string_of(&out)
        },
        None => string_of(&chars_of("~/…")),
    }
}

/// Redacts a filesystem path for an answer: only the last component is
/// shown, so that the layout of directories does not leak.
pub fn redact_path(path: &str) -> (r: String)
    ensures
        r@ == redacted(file_name(path@)),
{
    match file_name_of(path) {
        Some(n) => redact_file_name(Some(n.as_str())),
        None => redact_file_name(None),
    }
}

/// Parameters of `create_environment`.
#[derive(Debug, Clone)]
pub struct CreateEnvironmentParams {
    /// Name of the environment.
    pub name: EnvName,
    /// Python version, such as `3.12`.
    pub python: Option<String>,
}

/// Parameters of `install_packages`.
#[derive(Debug, Clone)]
pub struct InstallPackagesParams {
    /// Name of the environment.
    pub env_name: EnvName,
    /// Package names, version specs, wheel paths and URLs.
    pub packages: Vec<String>,
    /// Custom package index.
    pub index_url: Option<String>,
    /// Additional package index.
    pub extra_index_url: Option<String>,
    /// Include pre-release versions.
    pub pre: Option<bool>,
    /// Upgrade packages that are installed.
    pub upgrade: Option<bool>,
    /// Install in editable mode.
    pub editable: Option<bool>,
}

/// Parameters of `uninstall_packages`.
#[derive(Debug, Clone)]
pub struct UninstallPackagesParams {
    /// Name of the environment.
    pub env_name: EnvName,
    /// Packages to uninstall.
    pub packages: Vec<String>,
}

/// Parameters of `run_in_environment`.
#[derive(Debug, Clone)]
pub struct RunInEnvironmentParams {
    /// Name of the environment.
    pub env_name: EnvName,
    /// Command and arguments.
    pub command: Vec<String>,
    /// Timeout in seconds; 120 by default, 0 for none.
    pub timeout: Option<u64>,
    /// Working directory; the home directory by default.
    pub cwd: Option<String>,
}

/// Parameters of `list_environments`.
#[derive(Debug, Clone)]
pub struct ListEnvironmentsParams {
    /// Label to filter by.
    pub label: Option<String>,
}

/// An environment's name as the only parameter.
#[derive(Debug, Clone)]
pub struct EnvNameParam {
    /// Name of the environment.
    pub env_name: EnvName,
}

/// A project's path as the only parameter.
#[derive(Debug, Clone)]
pub struct ProjectPathParam {
    /// Absolute path of the project directory.
    pub project_path: String,
}

/// Parameters of `associate_project`.
#[derive(Debug, Clone)]
pub struct AssociateProjectParams {
    /// Absolute path of the project directory.
    pub project_path: String,
    /// Name of the environment to associate.
    pub env_name: EnvName,
    /// Tag such as `main`, `test`, `experiment`.
    pub tag: Option<String>,
    /// Make the environment the default of the project.
    pub is_default: Option<bool>,
}

/// Parameters of `compare_environments`.
#[derive(Debug, Clone)]
pub struct CompareEnvironmentsParams {
    /// Names of the environments to compare.
    pub env_names: Vec<String>,
}

/// Parameters of `add_environment_note`.
#[derive(Debug, Clone)]
pub struct AddEnvironmentNoteParams {
    /// Name of the environment.
    pub env_name: EnvName,
    /// The note.
    pub note: String,
}

/// Parameters of `search_packages`.
#[derive(Debug, Clone)]
pub struct SearchPackagesParams {
    /// Package name or part of one.
    pub query: String,
}

/// Parameters of `find_package`: a name, a pattern with `*`, or a name
/// with a pinned version such as `torch==2.10`.
#[derive(Debug, Clone)]
pub struct FindPackageParams {
    /// Package name or pattern.
    pub query: String,
}

/// Parameters of `get_package_details`.
#[derive(Debug, Clone)]
pub struct PackageDetailsParams {
    /// Name of the environment.
    pub env_name: EnvName,
    /// Name of the package.
    pub package: String,
}

/// Parameters of `add_label` and `remove_label`.
#[derive(Debug, Clone)]
pub struct LabelParams {
    /// Name of the environment.
    pub env_name: EnvName,
    /// The label.
    pub label: String,
}

/// The time after which a command run for an agent is stopped, in
/// seconds, or `None` for no limit: 120 by default, and no limit where 0
/// is asked for.
pub open spec fn run_deadline(timeout: Option<u64>) -> Option<u64> {
    match timeout {
        None => Some(120),
        Some(t) => if t == 0 {
            None
        } else {
            Some(t)
        },
    }
}

/// The time limit of a command run for an agent.
pub fn effective_timeout(timeout: Option<u64>) -> (r: Option<u64>)
    ensures
        r == run_deadline(timeout),
{
    match timeout {
        None => Some(120),
        Some(0) => None,
        Some(t) => Some(t),
    }
}


/// The most characters of the output of a command that an answer holds.
pub const MAX_OUTPUT: usize = 10240;

/// How the run of a command for an agent ended.
#[derive(Debug, Clone)]
pub enum RunOutcome {
    /// The command ran to its end, with this exit code and output.
    Finished { code: i32, output: String },
    /// The command could not be run, or was stopped; the text says why.
    Failed(String),
    /// The run broke down.
    Panicked,
}

/// What is said of a command that ran longer than it may.
pub open spec fn timeout_text(seconds: u64) -> Seq<char> {
    "Command timed out after "@ + decimal(seconds as nat) + "s"@
}

/// Says that a command was stopped after `seconds` seconds.
pub fn timeout_message(seconds: u64) -> (r: String)
    ensures
        r@ == timeout_text(seconds),
{
    let mut out = chars_of("Command timed out after ");
    append(&mut out, &decimal_of(seconds));
    append_str(&mut out, "s");
    string_of(&out)
}

/// The answer to a request to run a command: the output, cut to
/// `MAX_OUTPUT` characters, with the exit code where it is not 0; or
/// the error.
pub open spec fn run_answer(outcome: RunOutcome) -> Seq<char> {
    match outcome {
        RunOutcome::Finished { code, output } => (if output@.len() > MAX_OUTPUT {
            output@.take(MAX_OUTPUT as int) + "\n... (output truncated to 10KB)"@
        } else {
            output@
        }) + (if code != 0 {
            "\n[exit code: "@ + signed_decimal(code as int) + "]"@
        } else {
            Seq::empty()
        }),
        RunOutcome::Failed(e) => "Error: "@ + e@,
        RunOutcome::Panicked => "Error: Command execution panicked"@,
    }
}

/// Renders the answer to a request to run a command.
pub fn render_run(outcome: &RunOutcome) -> (r: String)
    ensures
        r@ == run_answer(*outcome),
{
    match outcome {
        RunOutcome::Finished { code, output } => {
            let o = chars_of(output.as_str());
            let mut out = if o.len() > MAX_OUTPUT {
                let mut cut = slice(&o, 0, MAX_OUTPUT);
                append_str(&mut cut, "\n... (output truncated to 10KB)");
                cut
            } else {
                o
            };
            if *code != 0 {
                append_str(&mut out, "\n[exit code: ");
                append(&mut out, &signed_decimal_of(*code as i128));
                append_str(&mut out, "]");
            }
            assert(out@ =~= run_answer(*outcome));
            string_of(&out)
        },
        RunOutcome::Failed(e) => {
            let mut out = chars_of("Error: ");
            append_str(&mut out, e.as_str());
            string_of(&out)
        },
        RunOutcome::Panicked => string_of(&chars_of("Error: Command execution panicked")),
    }
}

/// A query for a package: a part of its name and, after `==`, the start
/// of its version.
pub struct PackageQuery {
    /// The part of the name, normalized.
    pub pattern: Vec<char>,
    /// The version asked for.
    pub version: Option<Vec<char>>,
}

/// The part of the name that a query asks for: what stands before the
/// first `==`, without `*`, in lowercase and with `_` for `-`.
pub open spec fn query_pattern(query: Seq<char>) -> Seq<char> {
    replace_char(lowercase(without_stars(split_sub(query, "=="@)[0])), '-', '_')
}

/// The text without `*`.
pub open spec fn without_stars(s: Seq<char>) -> Seq<char>
    decreases s.len(),
{
    if s.len() == 0 {
        s
    } else if s.last() == '*' {
        without_stars(s.drop_last())
    } else {
        without_stars(s.drop_last()).push(s.last())
    }
}

/// The version that a query asks for: what stands between the first and
/// the second `==`, where the query has a `==`.
pub open spec fn query_version(query: Seq<char>) -> Option<Seq<char>> {
    if split_sub(query, "=="@).len() >= 2 {
        Some(split_sub(query, "=="@)[1])
    } else {
        None
    }
}

/// Whether a package is what a query asks for: its normalized name holds
/// the pattern, and its version is the one asked for. A version with a
/// `+` is asked for exactly; else the version before its local suffix
/// has to start with what is asked for.
pub open spec fn query_matches(query: Seq<char>, p: PackageView) -> bool {
    contains_sub(replace_char(lowercase(p.name), '-', '_'), query_pattern(query)) && (match (
        query_version(query),
        p.version,
    ) {
        (Some(q), Some(v)) => if has_char(q, '+') {
            v == q
        } else {
            starts_with(v.take(find_char(v, '+')), q)
        },
        (Some(_), None) => false,
        (None, _) => true,
    })
}

fn without_stars_of(v: &Vec<char>) -> (r: Vec<char>)
    ensures
        r@ == without_stars(v@),
{
    let mut r: Vec<char> = Vec::new();
    let mut i: usize = 0;
    proof {
        assert(v@.take(0) =~= Seq::<char>::empty());
    }
    while i < v.len()
        invariant
            i <= v.len(),
            r@ == without_stars(v@.take(i as int)),
        decreases v.len() - i,
    {
        proof {
            assert(v@.take(i + 1).drop_last() == v@.take(i as int));
        }
        if v[i] != '*' {
            r.push(v[i]);
        }
        i += 1;
    }
    assert(v@.take(v.len() as int) == v@);
    r
}

/// Reads a query for a package.
pub fn parse_package_query(query: &str) -> (r: PackageQuery)
    ensures
        r.pattern@ == query_pattern(query@),
        crate::text::opt_view(r.version) == query_version(query@),
{
    let sep = chars_of("==");
    proof {
        reveal_strlit("==");
    }
    let parts = split_sub_of(&chars_of(query), &sep);
    assert(views(parts@)[0] == parts@[0]@);
    let name = without_stars_of(&parts[0]);
    let pattern = replace_char_of(&lowercase_of(&name), '-', '_');
    let version = if parts.len() >= 2 {
        assert(views(parts@)[1] == parts@[1]@);
        Some(copy(&parts[1]))
    } else {
        None
    };
    PackageQuery { pattern, version }
}

/// Whether the package `p` is what the query `query` asks for.
pub fn package_matches(query: &str, p: &PackageMetadata) -> (b: bool)
    ensures
        b == query_matches(query@, p@),
{
    let q = parse_package_query(query);
    let name = replace_char_of(&lowercase_of(&chars_of(p.name.as_str())), '-', '_');
    let found = find_sub_of(&name, &q.pattern);
    proof {
        lemma_find_sub(name@, q.pattern@);
    }
    if found.is_none() {
        return false;
    }
    match (&q.version, &p.version) {
        (Some(want), Some(v)) => {
            let have = chars_of(v.as_str());
            if crate::text::contains_char(want, '+') {
                same(&have, want)
            } else {
                let k = first_index_of(&have, CharClass::Only('+'), true);
                has_prefix(&slice(&have, 0, k), want)
            }
        },
        (Some(_), None) => false,
        (None, _) => true,
    }
}

/// One line of an answer that lists packages: the environment, the
/// package and its version, `?` where it has none.
pub open spec fn match_line(env_name: Seq<char>, p: PackageView) -> Seq<char> {
    "• "@ + env_name + " → "@ + p.name + " ("@ + (match p.version {
        Some(v) => v,
        None => "?"@,
    }) + ")"@
}

/// Renders one line of an answer that lists packages.
pub fn render_match(env_name: &str, p: &PackageMetadata) -> (r: String)
    ensures
        r@ == match_line(env_name@, p@),
{
    let mut out = chars_of("• ");
    append_str(&mut out, env_name);
    append_str(&mut out, " → ");
    append_str(&mut out, p.name.as_str());
    append_str(&mut out, " (");
    match &p.version {
        Some(v) => {
            append_str(&mut out, v.as_str());
        },
        None => {
            append_str(&mut out, "?");
        },
    }
    append_str(&mut out, ")");
    assert(out@ =~= match_line(env_name@, p@));
    string_of(&out)
}

/// The lines for those of the first `n` packages of the environment
/// `env_name` that the query asks for.
pub open spec fn match_lines(query: Seq<char>, env_name: Seq<char>, ps: Seq<PackageView>, n: int) -> Seq<
    Seq<char>,
>
    decreases n,
{
    if n <= 0 {
        Seq::empty()
    } else if query_matches(query, ps[n - 1]) {
        match_lines(query, env_name, ps, n - 1).push(match_line(env_name, ps[n - 1]))
    } else {
        match_lines(query, env_name, ps, n - 1)
    }
}

/// Finds the packages of one environment that a query asks for, and
/// renders a line for each.
pub fn find_in_env(query: &str, env_name: &str, packages: &Vec<PackageMetadata>) -> (r: Vec<String>)
    ensures
        crate::text::string_views(r@) == match_lines(
            query@,
            env_name@,
            package_views(packages@),
            packages.len() as int,
        ),
{
    let mut out: Vec<String> = Vec::new();
    let ghost ps = package_views(packages@);
    let mut i: usize = 0;
    proof {
        assert(crate::text::string_views(out@) =~= match_lines(query@, env_name@, ps, 0));
    }
    while i < packages.len()
        invariant
            i <= packages.len(),
            ps == package_views(packages@),
            crate::text::string_views(out@) == match_lines(query@, env_name@, ps, i as int),
        decreases packages.len() - i,
    {
        assert(ps[i as int] == packages@[i as int]@);
        if package_matches(query, &packages[i]) {
            let line = render_match(env_name, &packages[i]);
            proof {
                crate::text::lemma_string_views_push(out@, line);
            }
            out.push(line);
        }
        i += 1;
    }
    out
}

/// The first `n` lines, each but the first after a line feed.
pub open spec fn joined_lines(lines: Seq<Seq<char>>, n: int) -> Seq<char>
    decreases n,
{
    if n <= 0 {
        Seq::empty()
    } else if n == 1 {
        lines[0]
    } else {
        joined_lines(lines, n - 1) + "\n"@ + lines[n - 1]
    }
}

/// The answer to a request to find a package, made of the lines found
/// in all environments.
pub open spec fn find_answer(query: Seq<char>, lines: Seq<Seq<char>>) -> Seq<char> {
    if lines.len() == 0 {
        "No packages matching '"@ + query + "' found"@
    } else {
        "Found "@ + decimal(lines.len()) + " match(es) for '"@ + query + "':\n"@ + joined_lines(
            lines,
            lines.len() as int,
        )
    }
}

/// Joins lines with line feeds.
pub fn join_lines(lines: &Vec<String>) -> (r: Vec<char>)
    ensures
        r@ == joined_lines(crate::text::string_views(lines@), lines.len() as int),
{
    let mut out: Vec<char> = Vec::new();
    let ghost ls = crate::text::string_views(lines@);
    let mut i: usize = 0;
    while i < lines.len()
        invariant
            i <= lines.len(),
            ls == crate::text::string_views(lines@),
            out@ == joined_lines(ls, i as int),
        decreases lines.len() - i,
    {
        assert(ls[i as int] == lines@[i as int]@);
        if i > 0 {
            append_str(&mut out, "\n");
        }
        append_str(&mut out, lines[i].as_str());
        i += 1;
    }
    out
}

/// Renders the answer to a request to find a package.
pub fn render_find(query: &str, lines: &Vec<String>) -> (r: String)
    ensures
        r@ == find_answer(query@, crate::text::string_views(lines@)),
{
    if lines.len() == 0 {
        let mut out = chars_of("No packages matching '");
        append_str(&mut out, query);
        append_str(&mut out, "' found");
        string_of(&out)
    } else {
        let mut out = chars_of("Found ");
        append(&mut out, &decimal_of(lines.len() as u64));
        append_str(&mut out, " match(es) for '");
        append_str(&mut out, query);
        append_str(&mut out, "':\n");
        append(&mut out, &join_lines(lines));
        assert(out@ =~= find_answer(query@, crate::text::string_views(lines@)));
        string_of(&out)
    }
}

/// The details of a package in an environment, as an answer.
/// `installed` is the time of the installation, rendered by the caller.
pub open spec fn package_details(env_name: Seq<char>, p: PackageView, installed: Option<Seq<char>>) -> Seq<
    char,
> {
    "# "@ + p.name + " in '"@ + env_name + "'\n\n"@ + "**Version**: "@ + known(p.version) + "\n"@
        + "**Installer**: "@ + known(p.installer) + "\n"@ + "**Source**: "@ + known(
        p.install_source,
    ) + "\n"@ + "**Editable**: "@ + (if p.is_editable {
        "yes"@
    } else {
        "no"@
    }) + "\n"@ + optional_line("**URL**: "@, p.source_url, "\n"@) + optional_line(
        "**Commit**: "@,
        p.commit_id,
        "\n"@,
    ) + optional_line("**Import**: `"@, p.import_name, "`\n"@) + optional_line(
        "**Installed**: "@,
        installed,
        "\n"@,
    )
}

/// The value, or `unknown`.
pub open spec fn known(value: Option<Seq<char>>) -> Seq<char> {
    match value {
        Some(v) => v,
        None => "unknown"@,
    }
}

/// The value between `before` and `after`, or nothing.
pub open spec fn optional_line(before: Seq<char>, value: Option<Seq<char>>, after: Seq<char>) -> Seq<
    char,
> {
    match value {
        Some(v) => before + v + after,
        None => Seq::empty(),
    }
}

fn append_known(out: &mut Vec<char>, value: &Option<String>)
    ensures
        final(out)@ == old(out)@ + known(opt_str_view(*value)),
{
    match value {
        Some(v) => append_str(out, v.as_str()),
        None => append_str(out, "unknown"),
    }
}

fn append_optional(out: &mut Vec<char>, before: &str, value: &Option<String>, after: &str)
    ensures
        final(out)@ == old(out)@ + optional_line(before@, opt_str_view(*value), after@),
{
    match value {
        Some(v) => {
            append_str(out, before);
            append_str(out, v.as_str());
            append_str(out, after);
            assert(out@ =~= old(out)@ + optional_line(before@, opt_str_view(*value), after@));
        },
        None => {
            assert(out@ =~= old(out)@ + optional_line(before@, opt_str_view(*value), after@));
        },
    }
}

/// Renders the details of a package in an environment.
pub fn render_package_details(env_name: &str, p: &PackageMetadata, installed: Option<String>) -> (r:
    String)
    ensures
        r@ == package_details(env_name@, p@, opt_str_view(installed)),
{
    let mut out = chars_of("# ");
    append_str(&mut out, p.name.as_str());
    append_str(&mut out, " in '");
    append_str(&mut out, env_name);
    append_str(&mut out, "'\n\n");
    append_str(&mut out, "**Version**: ");
    append_known(&mut out, &p.version);
    append_str(&mut out, "\n");
    append_str(&mut out, "**Installer**: ");
    append_known(&mut out, &p.installer);
    append_str(&mut out, "\n");
    append_str(&mut out, "**Source**: ");
    append_known(&mut out, &p.install_source);
    append_str(&mut out, "\n");
    append_str(&mut out, "**Editable**: ");
    append_str(
        &mut out,
        if p.is_editable {
            "yes"
        } else {
            "no"
        },
    );
    append_str(&mut out, "\n");
    append_optional(&mut out, "**URL**: ", &p.source_url, "\n");
    append_optional(&mut out, "**Commit**: ", &p.commit_id, "\n");
    append_optional(&mut out, "**Import**: `", &p.import_name, "`\n");
    append_optional(&mut out, "**Installed**: ", &installed, "\n");
    assert(out@ =~= package_details(env_name@, p@, opt_str_view(installed)));
    string_of(&out)
}

/// One line of the answer that lists the environments of a project.
pub open spec fn project_env_line(name: Seq<char>, tag: Option<Seq<char>>, is_default: bool) -> Seq<
    char,
> {
    "• "@ + name + optional_line(" ["@, tag, "]"@) + (if is_default {
        " (DEFAULT)"@
    } else {
        Seq::empty()
    })
}

/// Renders one line of the answer that lists the environments of a
/// project: the name, the tag and whether it is the default.
pub fn render_project_env(name: &str, tag: &Option<String>, is_default: bool) -> (r: String)
    ensures
        r@ == project_env_line(name@, opt_str_view(*tag), is_default),
{
    let mut out = chars_of("• ");
    append_str(&mut out, name);
    append_optional(&mut out, " [", tag, "]");
    if is_default {
        append_str(&mut out, " (DEFAULT)");
    }
    assert(out@ =~= project_env_line(name@, opt_str_view(*tag), is_default));
    string_of(&out)
}

/// One line of the answer that lists environments.
pub open spec fn env_line(name: Seq<char>, python_version: Seq<char>, path: Seq<char>) -> Seq<
    char,
> {
    "• "@ + name + " (Python "@ + python_version + ") - "@ + redacted(file_name(path))
        + "\n"@
}

/// Renders one line of the answer that lists environments: the name,
/// the Python version and the redacted path.
pub fn render_env_line(name: &str, python_version: &str, path: &str) -> (r: String)
    ensures
        r@ == env_line(name@, python_version@, path@),
{
    let mut out = chars_of("• ");
    append_str(&mut out, name);
    append_str(&mut out, " (Python ");
    append_str(&mut out, python_version);
    append_str(&mut out, ") - ");
    let shown = redact_path(path);
    append_str(&mut out, shown.as_str());
    append_str(&mut out, "\n");
    assert(out@ =~= env_line(name@, python_version@, path@));
    string_of(&out)
}


/// An environment that takes part in a comparison.
#[derive(Debug, Clone)]
pub struct ComparedEnv {
    pub name: String,
    /// The Python version, where the environment is registered.
    pub python_version: Option<String>,
    /// The packages of the environment.
    pub packages: Vec<PackageMetadata>,
}

/// The name under which a package is compared.
pub open spec fn compared_name(p: PackageView) -> Seq<char> {
    lowercase(p.name)
}

/// The version that is shown for a package: `?` where it has none.
pub open spec fn shown_version(p: PackageView) -> Seq<char> {
    match p.version {
        Some(v) => v,
        None => "?"@,
    }
}

/// The version of the package `name` among the first `n` packages: that
/// of the last package with the name.
pub open spec fn version_of(ps: Seq<PackageView>, n: int, name: Seq<char>) -> Option<Seq<char>>
    decreases n,
{
    if n <= 0 {
        None
    } else if compared_name(ps[n - 1]) == name {
        Some(shown_version(ps[n - 1]))
    } else {
        version_of(ps, n - 1, name)
    }
}

/// The names of the first `n` packages, each once, in the order in
/// which they first occur.
pub open spec fn package_names(ps: Seq<PackageView>, n: int) -> Seq<Seq<char>>
    decreases n,
{
    if n <= 0 {
        Seq::empty()
    } else {
        let prev = package_names(ps, n - 1);
        if prev.contains(compared_name(ps[n - 1])) {
            prev
        } else {
            prev.push(compared_name(ps[n - 1]))
        }
    }
}

/// The names as sort keys.
pub open spec fn name_keys(names: Seq<Seq<char>>) -> Seq<KeyView> {
    Seq::new(names.len(), |i: int| KeyView::Text(names[i]))
}

/// The names of the packages of an environment, each once, sorted.
pub open spec fn sorted_names(ps: Seq<PackageView>) -> Seq<Seq<char>> {
    let names = package_names(ps, ps.len() as int);
    let order = sorted_order(name_keys(names), names.len() as int, false);
    Seq::new(order.len(), |i: int| names[order[i] as int])
}

/// The rows of the table of version differences for the first `n` of
/// the sorted names of the first environment: one for each package that
/// both environments have, in different versions.
pub open spec fn difference_rows(
    names: Seq<Seq<char>>,
    a: Seq<PackageView>,
    b: Seq<PackageView>,
    n: int,
) -> Seq<char>
    decreases n,
{
    if n <= 0 {
        Seq::empty()
    } else {
        let prev = difference_rows(names, a, b, n - 1);
        let va = version_of(a, a.len() as int, names[n - 1]);
        let vb = version_of(b, b.len() as int, names[n - 1]);
        if va.is_some() && vb.is_some() && va != vb {
            prev + "| "@ + names[n - 1] + " | "@ + va.unwrap() + " | "@ + vb.unwrap() + " |\n"@
        } else {
            prev
        }
    }
}

/// Those of the first `n` names that are no packages of `other`,
/// separated by `, `.
pub open spec fn names_missing_in(names: Seq<Seq<char>>, other: Seq<PackageView>, n: int) -> Seq<
    char,
>
    decreases n,
{
    if n <= 0 {
        Seq::empty()
    } else {
        let prev = names_missing_in(names, other, n - 1);
        if version_of(other, other.len() as int, names[n - 1]).is_some() {
            prev
        } else if prev.len() == 0 {
            names[n - 1]
        } else {
            prev + ", "@ + names[n - 1]
        }
    }
}

/// The part of a comparison that sets two environments against each
/// other: the packages with different versions, the packages that only
/// the first has, and those that only the second has. A part without
/// packages is left out.
pub open spec fn difference_text(
    name_a: Seq<char>,
    a: Seq<PackageView>,
    name_b: Seq<char>,
    b: Seq<PackageView>,
) -> Seq<char> {
    let na = sorted_names(a);
    let nb = sorted_names(b);
    let rows = difference_rows(na, a, b, na.len() as int);
    let only_a = names_missing_in(na, b, na.len() as int);
    let only_b = names_missing_in(nb, a, nb.len() as int);
    (if rows.len() > 0 {
        "## Version differences\n\n| Package | "@ + name_a + " | "@ + name_b
            + " |\n|---------|------|------|\n"@ + rows + "\n"@
    } else {
        Seq::empty()
    }) + (if only_a.len() > 0 {
        "## Only in "@ + name_a + "\n"@ + only_a + "\n\n"@
    } else {
        Seq::empty()
    }) + (if only_b.len() > 0 {
        "## Only in "@ + name_b + "\n"@ + only_b + "\n\n"@
    } else {
        Seq::empty()
    })
}

fn compared_name_of(p: &PackageMetadata) -> (r: Vec<char>)
    ensures
        r@ == compared_name(p@),
{
    lowercase_of(&chars_of(p.name.as_str()))
}

fn version_of_exec(ps: &Vec<PackageMetadata>, name: &Vec<char>) -> (r: Option<Vec<char>>)
    ensures
        crate::text::opt_view(r) == version_of(package_views(ps@), ps.len() as int, name@),
{
    let mut n: usize = ps.len();
    let ghost pv = package_views(ps@);
    while n > 0
        invariant
            n <= ps.len(),
            pv == package_views(ps@),
            version_of(pv, ps.len() as int, name@) == version_of(pv, n as int, name@),
        decreases n,
    {
        assert(pv[n - 1] == ps@[n - 1]@);
        if same(&compared_name_of(&ps[n - 1]), name) {
            return Some(
                match &ps[n - 1].version {
                    Some(v) => chars_of(v.as_str()),
                    None => chars_of("?"),
                },
            );
        }
        n -= 1;
    }
    None
}

fn holds_name(names: &Vec<Vec<char>>, name: &Vec<char>) -> (b: bool)
    ensures
        b == views(names@).contains(name@),
{
    let mut i: usize = 0;
    while i < names.len()
        invariant
            i <= names.len(),
            forall|j: int| 0 <= j < i ==> views(names@)[j] != name@,
        decreases names.len() - i,
    {
        assert(views(names@)[i as int] == names@[i as int]@);
        if same(&names[i], name) {
            return true;
        }
        i += 1;
    }
    false
}

/// The names of the packages of an environment, each once, in the
/// order in which they first occur.
pub fn package_names_of(ps: &Vec<PackageMetadata>) -> (names: Vec<Vec<char>>)
    ensures
        views(names@) == package_names(package_views(ps@), ps.len() as int),
{
    let ghost pv = package_views(ps@);
    let mut names: Vec<Vec<char>> = Vec::new();
    let mut i: usize = 0;
    proof {
        assert(views(names@) =~= package_names(pv, 0));
    }
    while i < ps.len()
        invariant
            i <= ps.len(),
            pv == package_views(ps@),
            views(names@) == package_names(pv, i as int),
        decreases ps.len() - i,
    {
        assert(pv[i as int] == ps@[i as int]@);
        let name = compared_name_of(&ps[i]);
        if !holds_name(&names, &name) {
            proof {
                crate::text::lemma_views_push(names@, name);
            }
            names.push(name);
        }
        i += 1;
    }
    names
}

/// The names of the packages of an environment, each once, sorted.
pub fn sorted_names_of(ps: &Vec<PackageMetadata>) -> (r: Vec<Vec<char>>)
    ensures
        views(r@) == sorted_names(package_views(ps@)),
{
    let ghost pv = package_views(ps@);
    let names = package_names_of(ps);
    let mut keys: Vec<SortKey> = Vec::new();
    let mut j: usize = 0;
    while j < names.len()
        invariant
            j <= names.len(),
            keys.len() == j,
            forall|k: int| 0 <= k < j ==> (#[trigger] keys@[k])@ == KeyView::Text(names@[k]@),
        decreases names.len() - j,
    {
        keys.push(SortKey::Text(copy(&names[j])));
        j += 1;
    }
    assert(key_views(keys@) =~= name_keys(views(names@)));
    let order = sort_by_key(&keys, false);
    let mut out: Vec<Vec<char>> = Vec::new();
    let mut k: usize = 0;
    while k < order.len()
        invariant
            k <= order.len(),
            out.len() == k,
            forall|i: int| 0 <= i < order.len() ==> #[trigger] order@[i] < names.len(),
            forall|i: int| 0 <= i < k ==> (#[trigger] out@[i])@ == names@[order@[i] as int]@,
        decreases order.len() - k,
    {
        out.push(copy(&names[order[k]]));
        k += 1;
    }
    assert(views(out@) =~= sorted_names(pv));
    out
}

/// Renders the part of a comparison that sets two environments against
/// each other.
pub fn render_difference(
    name_a: &str,
    a: &Vec<PackageMetadata>,
    name_b: &str,
    b: &Vec<PackageMetadata>,
) -> (r: Vec<char>)
    ensures
        r@ == difference_text(name_a@, package_views(a@), name_b@, package_views(b@)),
{
    let ghost av = package_views(a@);
    let ghost bv = package_views(b@);
    let na = sorted_names_of(a);
    let nb = sorted_names_of(b);
    let mut rows: Vec<char> = Vec::new();
    let mut i: usize = 0;
    while i < na.len()
        invariant
            i <= na.len(),
            av == package_views(a@),
            bv == package_views(b@),
            rows@ == difference_rows(views(na@), av, bv, i as int),
        decreases na.len() - i,
    {
        assert(views(na@)[i as int] == na@[i as int]@);
        let va = version_of_exec(a, &na[i]);
        let vb = version_of_exec(b, &na[i]);
        match (va, vb) {
            (Some(x), Some(y)) => {
                if !same(&x, &y) {
                    append_str(&mut rows, "| ");
                    append(&mut rows, &na[i]);
                    append_str(&mut rows, " | ");
                    append(&mut rows, &x);
                    append_str(&mut rows, " | ");
                    append(&mut rows, &y);
                    append_str(&mut rows, " |\n");
                    assert(rows@ =~= difference_rows(views(na@), av, bv, i + 1));
                }
            },
            _ => {},
        }
        i += 1;
    }
    let only_a = missing_names(&na, b);
    let only_b = missing_names(&nb, a);
    let mut out: Vec<char> = Vec::new();
    if rows.len() > 0 {
        append_str(&mut out, "## Version differences\n\n| Package | ");
        append_str(&mut out, name_a);
        append_str(&mut out, " | ");
        append_str(&mut out, name_b);
        append_str(&mut out, " |\n|---------|------|------|\n");
        append(&mut out, &rows);
        append_str(&mut out, "\n");
    }
    if only_a.len() > 0 {
        append_str(&mut out, "## Only in ");
        append_str(&mut out, name_a);
        append_str(&mut out, "\n");
        append(&mut out, &only_a);
        append_str(&mut out, "\n\n");
    }
    if only_b.len() > 0 {
        append_str(&mut out, "## Only in ");
        append_str(&mut out, name_b);
        append_str(&mut out, "\n");
        append(&mut out, &only_b);
        append_str(&mut out, "\n\n");
    }
    assert(out@ =~= difference_text(name_a@, av, name_b@, bv));
    out
}

fn missing_names(names: &Vec<Vec<char>>, other: &Vec<PackageMetadata>) -> (r: Vec<char>)
    ensures
        r@ == names_missing_in(views(names@), package_views(other@), names.len() as int),
{
    let mut out: Vec<char> = Vec::new();
    let ghost ov = package_views(other@);
    let mut i: usize = 0;
    while i < names.len()
        invariant
            i <= names.len(),
            ov == package_views(other@),
            out@ == names_missing_in(views(names@), ov, i as int),
        decreases names.len() - i,
    {
        assert(views(names@)[i as int] == names@[i as int]@);
        if version_of_exec(other, &names[i]).is_none() {
            if out.len() > 0 {
                append_str(&mut out, ", ");
            }
            append(&mut out, &names[i]);
            assert(out@ =~= names_missing_in(views(names@), ov, i + 1));
        }
        i += 1;
    }
    out
}

/// The names of the first `n` environments, separated by ` vs `.
pub open spec fn versus(envs: Seq<ComparedEnv>, n: int) -> Seq<char>
    decreases n,
{
    if n <= 0 {
        Seq::empty()
    } else if n == 1 {
        envs[0].name@
    } else {
        versus(envs, n - 1) + " vs "@ + envs[n - 1].name@
    }
}

/// The section of a comparison on one environment: its Python version
/// and the number of its packages, or that it was not found.
pub open spec fn env_section(e: ComparedEnv) -> Seq<char> {
    match e.python_version {
        Some(py) => "## "@ + e.name@ + "\n- Python: "@ + py@ + "\n- Packages: "@ + decimal(
            package_names(package_views(e.packages@), e.packages@.len() as int).len(),
        ) + "\n\n"@,
        None => "## "@ + e.name@ + "\n- Not found\n\n"@,
    }
}

/// The sections on the first `n` environments.
pub open spec fn env_sections(envs: Seq<ComparedEnv>, n: int) -> Seq<char>
    decreases n,
{
    if n <= 0 {
        Seq::empty()
    } else {
        env_sections(envs, n - 1) + env_section(envs[n - 1])
    }
}

/// The index of the first environment from `k` on that was found, or
/// the number of environments.
pub open spec fn next_found(envs: Seq<ComparedEnv>, k: int) -> int
    decreases envs.len() - k,
{
    if k < 0 || k >= envs.len() {
        envs.len() as int
    } else if envs[k].python_version.is_some() {
        k
    } else {
        next_found(envs, k + 1)
    }
}

/// The comparison of environments, as an answer: a heading, a section on
/// each environment, and the differences between the first two that
/// were found. At least two environments are asked for.
pub open spec fn comparison(envs: Seq<ComparedEnv>) -> Seq<char> {
    let first = next_found(envs, 0);
    let second = next_found(envs, first + 1);
    if envs.len() < 2 {
        "At least two environment names are required"@
    } else {
        "# Comparison: "@ + versus(envs, envs.len() as int) + "\n\n"@ + env_sections(
            envs,
            envs.len() as int,
        ) + (if second < envs.len() {
            difference_text(
                envs[first].name@,
                package_views(envs[first].packages@),
                envs[second].name@,
                package_views(envs[second].packages@),
            )
        } else {
            Seq::empty()
        })
    }
}

fn next_found_of(envs: &Vec<ComparedEnv>, k: usize) -> (r: usize)
    requires
        k <= envs.len(),
    ensures
        r == next_found(envs@, k as int),
        k <= r <= envs.len(),
{
    let mut i: usize = k;
    while i < envs.len()
        invariant
            k <= i <= envs.len(),
            next_found(envs@, k as int) == next_found(envs@, i as int),
        decreases envs.len() - i,
    {
        if envs[i].python_version.is_some() {
            return i;
        }
        i += 1;
    }
    i
}

/// Renders the comparison of environments.
pub fn render_comparison(envs: &Vec<ComparedEnv>) -> (r: String)
    ensures
        r@ == comparison(envs@),
{
    if envs.len() < 2 {
        return string_of(&chars_of("At least two environment names are required"));
    }
    let mut out = chars_of("# Comparison: ");
    let ghost head = out@;
    let mut i: usize = 0;
    while i < envs.len()
        invariant
            i <= envs.len(),
            out@ == head + versus(envs@, i as int),
        decreases envs.len() - i,
    {
        if i > 0 {
            append_str(&mut out, " vs ");
        }
        append_str(&mut out, envs[i].name.as_str());
        i += 1;
        assert(out@ =~= head + versus(envs@, i as int));
    }
    append_str(&mut out, "\n\n");
    let ghost head2 = out@;
    let mut j: usize = 0;
    while j < envs.len()
        invariant
            j <= envs.len(),
            out@ == head2 + env_sections(envs@, j as int),
        decreases envs.len() - j,
    {
        let e = &envs[j];
        append_str(&mut out, "## ");
        append_str(&mut out, e.name.as_str());
        match &e.python_version {
            Some(py) => {
                append_str(&mut out, "\n- Python: ");
                append_str(&mut out, py.as_str());
                append_str(&mut out, "\n- Packages: ");
                let names = package_names_of(&e.packages);
                append(&mut out, &decimal_of(names.len() as u64));
                append_str(&mut out, "\n\n");
            },
            None => {
                append_str(&mut out, "\n- Not found\n\n");
            },
        }
        j += 1;
        assert(out@ =~= head2 + env_sections(envs@, j as int));
    }
    let first = next_found_of(envs, 0);
    if first < envs.len() {
        let second = next_found_of(envs, first + 1);
        if second < envs.len() {
            let d = render_difference(
                envs[first].name.as_str(),
                &envs[first].packages,
                envs[second].name.as_str(),
                &envs[second].packages,
            );
            append(&mut out, &d);
        }
    }
    assert(out@ =~= comparison(envs@));
    string_of(&out)
}


/// Whether the name of a package holds the text searched for, without
/// regard to the case of letters.
pub open spec fn search_matches(query: Seq<char>, p: PackageView) -> bool {
    contains_sub(lowercase(p.name), lowercase(query))
}

/// The lines for those of the first `n` packages of the environment
/// `env_name` whose name holds the text searched for.
pub open spec fn search_lines(query: Seq<char>, env_name: Seq<char>, ps: Seq<PackageView>, n: int) -> Seq<
    Seq<char>,
>
    decreases n,
{
    if n <= 0 {
        Seq::empty()
    } else if search_matches(query, ps[n - 1]) {
        search_lines(query, env_name, ps, n - 1).push(match_line(env_name, ps[n - 1]))
    } else {
        search_lines(query, env_name, ps, n - 1)
    }
}

/// Searches the packages of one environment for a part of a name, and
/// renders a line for each that is found.
pub fn search_in_env(query: &str, env_name: &str, packages: &Vec<PackageMetadata>) -> (r: Vec<
    String,
>)
    ensures
        crate::text::string_views(r@) == search_lines(
            query@,
            env_name@,
            package_views(packages@),
            packages.len() as int,
        ),
{
    let wanted = lowercase_of(&chars_of(query));
    let mut out: Vec<String> = Vec::new();
    let ghost ps = package_views(packages@);
    let mut i: usize = 0;
    proof {
        assert(crate::text::string_views(out@) =~= search_lines(query@, env_name@, ps, 0));
    }
    while i < packages.len()
        invariant
            i <= packages.len(),
            ps == package_views(packages@),
            wanted@ == lowercase(query@),
            crate::text::string_views(out@) == search_lines(query@, env_name@, ps, i as int),
        decreases packages.len() - i,
    {
        assert(ps[i as int] == packages@[i as int]@);
        let name = lowercase_of(&chars_of(packages[i].name.as_str()));
        let found = find_sub_of(&name, &wanted);
        proof {
            lemma_find_sub(name@, wanted@);
        }
        if found.is_some() {
            let line = render_match(env_name, &packages[i]);
            proof {
                crate::text::lemma_string_views_push(out@, line);
            }
            out.push(line);
        }
        i += 1;
    }
    out
}

/// The answer to a search for packages, made of the lines found in all
/// environments.
pub open spec fn search_answer(query: Seq<char>, lines: Seq<Seq<char>>) -> Seq<char> {
    if lines.len() == 0 {
        "No packages matching '"@ + query + "' found"@
    } else {
        "Packages matching '"@ + query + "':\n"@ + joined_lines(lines, lines.len() as int)
    }
}

/// Renders the answer to a search for packages.
pub fn render_search(query: &str, lines: &Vec<String>) -> (r: String)
    ensures
        r@ == search_answer(query@, crate::text::string_views(lines@)),
{
    if lines.len() == 0 {
        let mut out = chars_of("No packages matching '");
        append_str(&mut out, query);
        append_str(&mut out, "' found");
        string_of(&out)
    } else {
        let mut out = chars_of("Packages matching '");
        append_str(&mut out, query);
        append_str(&mut out, "':\n");
        append(&mut out, &join_lines(lines));
        assert(out@ =~= search_answer(query@, crate::text::string_views(lines@)));
        string_of(&out)
    }
}

/// The answer that lists environments, made of the lines of the
/// environments; `label` is the label that was asked for, if any.
pub open spec fn list_answer(lines: Seq<Seq<char>>, label: Option<Seq<char>>) -> Seq<char> {
    if lines.len() == 0 {
        match label {
            Some(l) => "No environments found with label '"@ + l + "'"@,
            None => "No environments found."@,
        }
    } else {
        concatenated(lines, lines.len() as int)
    }
}

/// The first `n` texts, one after the other.
pub open spec fn concatenated(parts: Seq<Seq<char>>, n: int) -> Seq<char>
    decreases n,
{
    if n <= 0 {
        Seq::empty()
    } else {
        concatenated(parts, n - 1) + parts[n - 1]
    }
}

/// Renders the answer that lists environments.
pub fn render_env_list(lines: &Vec<String>, label: &Option<String>) -> (r: String)
    ensures
        r@ == list_answer(crate::text::string_views(lines@), opt_str_view(*label)),
{
    if lines.len() == 0 {
        match label {
            Some(l) => {
                let mut out = chars_of("No environments found with label '");
                append_str(&mut out, l.as_str());
                append_str(&mut out, "'");
                string_of(&out)
            },
            None => string_of(&chars_of("No environments found.")),
        }
    } else {
        let mut out: Vec<char> = Vec::new();
        let ghost ls = crate::text::string_views(lines@);
        let mut i: usize = 0;
        while i < lines.len()
            invariant
                i <= lines.len(),
                ls == crate::text::string_views(lines@),
                out@ == concatenated(ls, i as int),
            decreases lines.len() - i,
        {
            assert(ls[i as int] == lines@[i as int]@);
            append_str(&mut out, lines[i].as_str());
            i += 1;
        }
        string_of(&out)
    }
}

/// The index of the first package from `k` on with exactly the name
/// `name`, or the number of packages.
pub open spec fn named_package(ps: Seq<PackageView>, name: Seq<char>, k: int) -> int
    decreases ps.len() - k,
{
    if k < 0 || k >= ps.len() {
        ps.len() as int
    } else if ps[k].name == name {
        k
    } else {
        named_package(ps, name, k + 1)
    }
}

/// The details of an environment, as an answer: its Python version, its
/// redacted path, the number of its packages, when it was created, and
/// the versions of PyTorch, CUDA and NumPy as far as they are there.
/// `created` is the time of creation, rendered by the caller, and
/// `torch` what PyTorch's `version.py` gives.
pub open spec fn environment_details(
    name: Seq<char>,
    python_version: Seq<char>,
    path: Seq<char>,
    ps: Seq<PackageView>,
    created: Option<Seq<char>>,
    torch: Option<(Seq<char>, Option<Seq<char>>)>,
) -> Seq<char> {
    let numpy = named_package(ps, "numpy"@, 0);
    "# Environment: "@ + name + "\n\n"@ + "**Python**: "@ + python_version + "\n"@ + "**Path**: "@
        + redacted(file_name(path)) + "\n"@ + "**Packages**: "@ + decimal(ps.len()) + "\n"@
        + optional_line("**Created**: "@, created, "\n"@) + "\n"@ + (match torch {
        Some((version, cuda)) => "**PyTorch**: "@ + version + "\n"@ + optional_line(
            "**CUDA**: "@,
            cuda,
            "\n"@,
        ),
        None => Seq::empty(),
    }) + (if numpy < ps.len() {
        optional_line("**NumPy**: "@, ps[numpy].version, "\n"@)
    } else {
        Seq::empty()
    })
}

/// Renders the details of an environment.
pub fn render_environment_details(
    name: &str,
    python_version: &str,
    path: &str,
    packages: &Vec<PackageMetadata>,
    created: Option<String>,
    torch: Option<(String, Option<String>)>,
) -> (r: String)
    ensures
        r@ == environment_details(
            name@,
            python_version@,
            path@,
            package_views(packages@),
            opt_str_view(created),
            match torch {
                Some((v, c)) => Some((v@, opt_str_view(c))),
                None => None,
            },
        ),
{
    let ghost ps = package_views(packages@);
    let mut out = chars_of("# Environment: ");
    append_str(&mut out, name);
    append_str(&mut out, "\n\n");
    append_str(&mut out, "**Python**: ");
    append_str(&mut out, python_version);
    append_str(&mut out, "\n");
    append_str(&mut out, "**Path**: ");
    let shown = redact_path(path);
    append_str(&mut out, shown.as_str());
    append_str(&mut out, "\n");
    append_str(&mut out, "**Packages**: ");
    append(&mut out, &decimal_of(packages.len() as u64));
    append_str(&mut out, "\n");
    append_optional(&mut out, "**Created**: ", &created, "\n");
    append_str(&mut out, "\n");
    match &torch {
        Some((version, cuda)) => {
            append_str(&mut out, "**PyTorch**: ");
            append_str(&mut out, version.as_str());
            append_str(&mut out, "\n");
            append_optional(&mut out, "**CUDA**: ", cuda, "\n");
        },
        None => {},
    }
    let numpy_name = chars_of("numpy");
    let mut k: usize = 0;
    while k < packages.len() && !same(&chars_of(packages[k].name.as_str()), &numpy_name)
        invariant
            k <= packages.len(),
            ps == package_views(packages@),
            numpy_name@ == "numpy"@,
            named_package(ps, "numpy"@, 0) == named_package(ps, "numpy"@, k as int),
        decreases packages.len() - k,
    {
        assert(ps[k as int] == packages@[k as int]@);
        k += 1;
    }
    if k < packages.len() {
        assert(ps[k as int] == packages@[k as int]@);
        append_optional(&mut out, "**NumPy**: ", &packages[k].version, "\n");
    }
    assert(out@ =~= environment_details(
        name@,
        python_version@,
        path@,
        ps,
        opt_str_view(created),
        match torch {
            Some((v, c)) => Some((v@, opt_str_view(c))),
            None => None,
        },
    ));
    string_of(&out)
}

/// One line of the answer that lists the notes of an environment: the
/// time in brackets and the text.
pub open spec fn note_line(time: Seq<char>, message: Seq<char>) -> Seq<char> {
    "["@ + time + "] "@ + message + "\n"@
}

/// The answer that lists the notes of an environment, made of the lines
/// of the notes.
pub open spec fn notes_answer(env_name: Seq<char>, lines: Seq<Seq<char>>) -> Seq<char> {
    if lines.len() == 0 {
        "No notes for environment '"@ + env_name + "'"@
    } else {
        "Notes for '"@ + env_name + "':\n"@ + concatenated(lines, lines.len() as int)
    }
}

/// Renders one line of the answer that lists the notes of an
/// environment. `time` is the time of the note, rendered by the caller.
pub fn render_note_line(time: &str, message: &str) -> (r: String)
    ensures
        r@ == note_line(time@, message@),
{
    let mut out = chars_of("[");
    append_str(&mut out, time);
    append_str(&mut out, "] ");
    append_str(&mut out, message);
    append_str(&mut out, "\n");
    assert(out@ =~= note_line(time@, message@));
    string_of(&out)
}

/// Renders the answer that lists the notes of an environment.
pub fn render_notes(env_name: &str, lines: &Vec<String>) -> (r: String)
    ensures
        r@ == notes_answer(env_name@, crate::text::string_views(lines@)),
{
    if lines.len() == 0 {
        let mut out = chars_of("No notes for environment '");
        append_str(&mut out, env_name);
        append_str(&mut out, "'");
        string_of(&out)
    } else {
        let mut out = chars_of("Notes for '");
        append_str(&mut out, env_name);
        append_str(&mut out, "':\n");
        let ghost head = out@;
        let ghost ls = crate::text::string_views(lines@);
        let mut i: usize = 0;
        while i < lines.len()
            invariant
                i <= lines.len(),
                ls == crate::text::string_views(lines@),
                out@ == head + concatenated(ls, i as int),
            decreases lines.len() - i,
        {
            assert(ls[i as int] == lines@[i as int]@);
            append_str(&mut out, lines[i].as_str());
            i += 1;
            assert(out@ =~= head + concatenated(ls, i as int));
        }
        string_of(&out)
    }
}

/// An answer that reports an error.
pub open spec fn error_answer(message: Seq<char>) -> Seq<char> {
    "Error: "@ + message
}

/// Renders an error as an answer. Every error becomes an answer; a bad
/// request stops nothing.
pub fn render_error(message: &str) -> (r: String)
    ensures
        r@ == error_answer(message@),
{
    let mut out = chars_of("Error: ");
    append_str(&mut out, message);
    string_of(&out)
}


/// Renders the details of a package in an environment, with the time of
/// its installation in the time zone of the machine.
pub fn package_details_answer(env_name: &str, p: &PackageMetadata) -> (r: String)
    ensures
        exists|installed: Option<Seq<char>>|
            r@ == package_details(env_name@, p@, installed) && (p.installed_at.is_none()
                ==> installed.is_none()),
{
    let installed = crate::clock::time_text(p.installed_at, false);
    let ghost shown = opt_str_view(installed);
    let r = render_package_details(env_name, p, installed);
    assert(r@ == package_details(env_name@, p@, shown) && (p.installed_at.is_none()
        ==> shown.is_none()));
    r
}

/// What PyTorch's `version.py` gives, as characters.
pub open spec fn torch_view(torch: Option<(String, Option<String>)>) -> Option<
    (Seq<char>, Option<Seq<char>>),
> {
    match torch {
        Some((v, c)) => Some((v@, opt_str_view(c))),
        None => None,
    }
}

/// Renders the details of an environment, with the time of its creation
/// in the time zone of the machine. `created_at` is the time of
/// creation, in seconds since the epoch.
pub fn environment_details_answer(
    name: &str,
    python_version: &str,
    path: &str,
    packages: &Vec<PackageMetadata>,
    created_at: Option<i64>,
    torch: Option<(String, Option<String>)>,
) -> (r: String)
    ensures
        exists|created: Option<Seq<char>>|
            r@ == environment_details(
                name@,
                python_version@,
                path@,
                package_views(packages@),
                created,
                torch_view(torch),
            ) && (created_at.is_none() ==> created.is_none()),
{
    let created = crate::clock::time_text(created_at, false);
    let ghost shown = opt_str_view(created);
    let ghost shown_torch = torch_view(torch);
    let r = render_environment_details(name, python_version, path, packages, created, torch);
    assert(r@ == environment_details(
        name@,
        python_version@,
        path@,
        package_views(packages@),
        shown,
        shown_torch,
    ) && (created_at.is_none() ==> shown.is_none()));
    r
}

/// Renders one line of the answer that lists the notes of an
/// environment, with the time of the note in the time zone of the
/// machine.
pub fn note_line_answer(created_at: i64, message: &str) -> (r: String)
    ensures
        exists|time: Seq<char>| r@ == note_line(time, message@),
{
    let time = match crate::clock::time_text(Some(created_at), false) {
        Some(t) => t,
        None => String::new(),
    };
    let r = render_note_line(time.as_str(), message);
    assert(r@ == note_line(time@, message@));
    r
}

} // verus!
