//! The operations layer: what is decided and composed around the
//! registry and the installer, without touching either.

use crate::order::{key_views, sort_by_key, sorted_order, KeyView, SortKey};
use crate::registry::{
    env_by_path, env_views, note_index, EnvView, Environment, LinkType, NoteView, Registry,
    RegistryError, RegistryView,
};
use crate::types::EnvName;
use crate::scanner::{package_views, PackageMetadata, PackageView};
use crate::style::{bold, cyan, dimmed, green, in_bold, in_cyan, in_dim, in_green};
use crate::text::{
    append, append_str, chars_of, contains_char, contains_sub, decimal, decimal_of, ends_with,
    find_sub_of, has_char, has_prefix_str, has_suffix, lemma_find_sub, lemma_string_views_push,
    lowercase, lowercase_of, opt_str_view, same, starts_with, string_of, string_views,
};
use vstd::prelude::*;

verus! {

/// Options for the installation of packages.
#[derive(Debug, Clone)]
pub struct InstallOptions {
    pub index_url: Option<String>,
    pub extra_index_url: Option<String>,
    pub pre: bool,
    pub upgrade: bool,
    pub editable: bool,
    pub dry_run: bool,
}

impl Default for InstallOptions {
    fn default() -> (r: Self)
        ensures
            r.index_url.is_none(),
            r.extra_index_url.is_none(),
            !r.pre,
            !r.upgrade,
            !r.editable,
            !r.dry_run,
    {
        InstallOptions {
            index_url: None,
            extra_index_url: None,
            pre: false,
            upgrade: false,
            editable: false,
            dry_run: false,
        }
    }
}

/// `word` if `on`, nothing else.
pub open spec fn flag(on: bool, word: Seq<char>) -> Seq<Seq<char>> {
    if on {
        seq![word]
    } else {
        Seq::empty()
    }
}

/// `word` and the value if there is one, nothing else.
pub open spec fn valued_flag(value: Option<Seq<char>>, word: Seq<char>) -> Seq<Seq<char>> {
    match value {
        Some(v) => seq![word, v],
        None => Seq::empty(),
    }
}

/// The arguments with which the installer installs `packages`:
/// `install`, then `-e`, `--pre`, `--upgrade`, `--dry-run`,
/// `--index-url` and `--extra-index-url` as far as the options ask for
/// them, then the packages.
pub open spec fn install_arguments(packages: Seq<Seq<char>>, opts: InstallOptions) -> Seq<
    Seq<char>,
> {
    seq!["install"@] + flag(opts.editable, "-e"@) + flag(opts.pre, "--pre"@) + flag(
        opts.upgrade,
        "--upgrade"@,
    ) + flag(opts.dry_run, "--dry-run"@) + valued_flag(
        opt_str_view(opts.index_url),
        "--index-url"@,
    ) + valued_flag(opt_str_view(opts.extra_index_url), "--extra-index-url"@) + packages
}

/// The arguments with which the installer uninstalls `packages`. Where
/// `pip` itself is called, it is told not to ask.
pub open spec fn uninstall_arguments(packages: Seq<Seq<char>>, use_uv: bool) -> Seq<Seq<char>> {
    seq!["uninstall"@] + flag(!use_uv, "-y"@) + packages
}

/// The program that is called and its arguments: `uv pip ...` where
/// `uv` is there, `pip ...` else.
pub open spec fn installer_command(args: Seq<Seq<char>>, use_uv: bool) -> (
    Seq<char>,
    Seq<Seq<char>>,
) {
    if use_uv {
        ("uv"@, seq!["pip"@] + args)
    } else {
        ("pip"@, args)
    }
}

fn lit(s: &str) -> (r: String)
    ensures
        r@ == s@,
{
    string_of(&chars_of(s))
}

fn push_word(out: &mut Vec<String>, word: &str)
    ensures
        string_views(final(out)@) == string_views(old(out)@).push(word@),
{
    let w = lit(word);
    proof {
        lemma_string_views_push(out@, w);
    }
    out.push(w);
}

fn push_all(out: &mut Vec<String>, words: &Vec<String>)
    ensures
        string_views(final(out)@) == string_views(old(out)@) + string_views(words@),
{
    let ghost before = string_views(out@);
    let mut i: usize = 0;
    proof {
        assert(string_views(out@) =~= before + string_views(words@).take(0));
    }
    while i < words.len()
        invariant
            i <= words.len(),
            string_views(out@) == before + string_views(words@).take(i as int),
        decreases words.len() - i,
    {
        let w = words[i].clone();
        proof {
            lemma_string_views_push(out@, w);
            assert(string_views(words@)[i as int] == w@);
            assert(string_views(words@).take(i + 1) =~= string_views(words@).take(i as int).push(
                w@,
            ));
            assert(string_views(out@).push(w@) =~= before + string_views(words@).take(i + 1));
        }
        out.push(w);
        i += 1;
    }
    assert(string_views(words@).take(words.len() as int) == string_views(words@));
}

proof fn lemma_append_twice(a: Seq<Seq<char>>, b: Seq<Seq<char>>, c: Seq<Seq<char>>)
    ensures
        (a + b) + c == a + (b + c),
{
    assert((a + b) + c =~= a + (b + c));
}

fn push_flag(out: &mut Vec<String>, on: bool, word: &str)
    ensures
        string_views(final(out)@) == string_views(old(out)@) + flag(on, word@),
{
    if on {
        push_word(out, word);
        assert(string_views(out@) =~= string_views(old(out)@) + flag(on, word@));
    } else {
        assert(string_views(out@) =~= string_views(old(out)@) + flag(on, word@));
    }
}

fn push_valued(out: &mut Vec<String>, value: &Option<String>, word: &str)
    ensures
        string_views(final(out)@) == string_views(old(out)@) + valued_flag(
            opt_str_view(*value),
            word@,
        ),
{
    match value {
        Some(v) => {
            push_word(out, word);
            push_word(out, v.as_str());
            assert(string_views(out@) =~= string_views(old(out)@) + valued_flag(
                opt_str_view(*value),
                word@,
            ));
        },
        None => {
            assert(string_views(out@) =~= string_views(old(out)@) + valued_flag(
                opt_str_view(*value),
                word@,
            ));
        },
    }
}

fn program_and_head(use_uv: bool) -> (r: (String, Vec<String>))
    ensures
        r.0@ == installer_command(Seq::empty(), use_uv).0,
        string_views(r.1@) == installer_command(Seq::empty(), use_uv).1,
        forall|args: Seq<Seq<char>>|
            #![trigger installer_command(args, use_uv)]
            installer_command(args, use_uv).1 == string_views(r.1@) + args,
{
    let mut head: Vec<String> = Vec::new();
    assert(string_views(head@) =~= Seq::<Seq<char>>::empty());
    if use_uv {
        push_word(&mut head, "pip");
        assert forall|args: Seq<Seq<char>>|
            #![trigger installer_command(args, use_uv)]
            installer_command(args, use_uv).1 == string_views(head@) + args by {
            assert(seq!["pip"@] + args =~= string_views(head@) + args);
        }
        (lit("uv"), head)
    } else {
        assert forall|args: Seq<Seq<char>>|
            #![trigger installer_command(args, use_uv)]
            installer_command(args, use_uv).1 == string_views(head@) + args by {
            assert(args =~= string_views(head@) + args);
        }
        (lit("pip"), head)
    }
}

/// Composes the call of the installer that installs `packages`: the
/// program and its arguments.
pub fn install_command(packages: &Vec<String>, opts: &InstallOptions, use_uv: bool) -> (r: (
    String,
    Vec<String>,
))
    ensures
        (r.0@, string_views(r.1@)) == installer_command(
            install_arguments(string_views(packages@), *opts),
            use_uv,
        ),
{
    let (program, mut args) = program_and_head(use_uv);
    let ghost head = string_views(args@);
    push_word(&mut args, "install");
    let ghost said = seq!["install"@];
    assert(string_views(args@) =~= head + said);
    push_flag(&mut args, opts.editable, "-e");
    proof {
        lemma_append_twice(head, said, flag(opts.editable, "-e"@));
    }
    let ghost said = said + flag(opts.editable, "-e"@);
    push_flag(&mut args, opts.pre, "--pre");
    proof {
        lemma_append_twice(head, said, flag(opts.pre, "--pre"@));
    }
    let ghost said = said + flag(opts.pre, "--pre"@);
    push_flag(&mut args, opts.upgrade, "--upgrade");
    proof {
        lemma_append_twice(head, said, flag(opts.upgrade, "--upgrade"@));
    }
    let ghost said = said + flag(opts.upgrade, "--upgrade"@);
    push_flag(&mut args, opts.dry_run, "--dry-run");
    proof {
        lemma_append_twice(head, said, flag(opts.dry_run, "--dry-run"@));
    }
    let ghost said = said + flag(opts.dry_run, "--dry-run"@);
    push_valued(&mut args, &opts.index_url, "--index-url");
    proof {
        lemma_append_twice(head, said, valued_flag(opt_str_view(opts.index_url), "--index-url"@));
    }
    let ghost said = said + valued_flag(opt_str_view(opts.index_url), "--index-url"@);
    push_valued(&mut args, &opts.extra_index_url, "--extra-index-url");
    proof {
        lemma_append_twice(
            head,
            said,
            valued_flag(opt_str_view(opts.extra_index_url), "--extra-index-url"@),
        );
    }
    let ghost said = said + valued_flag(
        opt_str_view(opts.extra_index_url),
        "--extra-index-url"@,
    );
    push_all(&mut args, packages);
    proof {
        lemma_append_twice(head, said, string_views(packages@));
    }
    (program, args)
}

/// Composes the call of the installer that uninstalls `packages`.
pub fn uninstall_command(packages: &Vec<String>, use_uv: bool) -> (r: (String, Vec<String>))
    ensures
        (r.0@, string_views(r.1@)) == installer_command(
            uninstall_arguments(string_views(packages@), use_uv),
            use_uv,
        ),
{
    let (program, mut args) = program_and_head(use_uv);
    let ghost head = string_views(args@);
    push_word(&mut args, "uninstall");
    push_flag(&mut args, !use_uv, "-y");
    push_all(&mut args, packages);
    assert(string_views(args@) =~= head + uninstall_arguments(string_views(packages@), use_uv));
    (program, args)
}

/// The arguments with which the installer installs packages into the
/// environment in which a template is tried: `install`, the package
/// index where one is used, and the wheel file or else the packages.
pub open spec fn trial_arguments(
    packages: Seq<Seq<char>>,
    wheel_path: Option<Seq<char>>,
    index_url: Option<Seq<char>>,
) -> Seq<Seq<char>> {
    seq!["install"@] + valued_flag(index_url, "--index-url"@) + (match wheel_path {
        Some(w) => seq![w],
        None => packages,
    })
}

/// Composes the call of the installer that installs packages into the
/// environment in which a template is tried.
pub fn trial_install_command(
    packages: &Vec<String>,
    wheel_path: &Option<String>,
    index_url: &Option<String>,
    use_uv: bool,
) -> (r: (String, Vec<String>))
    ensures
        (r.0@, string_views(r.1@)) == installer_command(
            trial_arguments(
                string_views(packages@),
                opt_str_view(*wheel_path),
                opt_str_view(*index_url),
            ),
            use_uv,
        ),
{
    let (program, mut args) = program_and_head(use_uv);
    let ghost head = string_views(args@);
    push_word(&mut args, "install");
    push_valued(&mut args, index_url, "--index-url");
    match wheel_path {
        Some(w) => {
            push_word(&mut args, w.as_str());
        },
        None => {
            push_all(&mut args, packages);
        },
    }
    assert(string_views(args@) =~= head + trial_arguments(
        string_views(packages@),
        opt_str_view(*wheel_path),
        opt_str_view(*index_url),
    ));
    (program, args)
}

/// Composes the call of the installer that shows what is installed of
/// the package `name`.
pub fn show_command(name: &str, use_uv: bool) -> (r: (String, Vec<String>))
    ensures
        (r.0@, string_views(r.1@)) == installer_command(seq!["show"@, name@], use_uv),
{
    let (program, mut args) = program_and_head(use_uv);
    let ghost head = string_views(args@);
    push_word(&mut args, "show");
    push_word(&mut args, name);
    assert(string_views(args@) =~= head + seq!["show"@, name@]);
    (program, args)
}

/// The directory `bin` of an environment.
pub open spec fn bin_dir(env_path: Seq<char>) -> Seq<char> {
    if env_path.len() == 0 {
        "bin"@
    } else if env_path.last() == '/' {
        env_path + "bin"@
    } else {
        env_path + "/bin"@
    }
}

/// The search path for a program that runs in an environment: the
/// directory `bin` of the environment before the search path that there
/// is.
pub open spec fn search_path(env_path: Seq<char>, path: Seq<char>) -> Seq<char> {
    bin_dir(env_path) + ":"@ + path
}

/// The directory `bin` of the environment at `env_path`.
pub fn env_bin_dir(env_path: &str) -> (r: String)
    ensures
        r@ == bin_dir(env_path@),
{
    let mut out = chars_of(env_path);
    if out.len() == 0 {
        append_str(&mut out, "bin");
    } else if out[out.len() - 1] == '/' {
        append_str(&mut out, "bin");
    } else {
        append_str(&mut out, "/bin");
    }
    string_of(&out)
}

/// The value of `PATH` for a program that runs in the environment at
/// `env_path`, where `path` is the value that there is.
pub fn env_search_path(env_path: &str, path: &str) -> (r: String)
    ensures
        r@ == search_path(env_path@, path@),
{
    let b = env_bin_dir(env_path);
    let mut out = chars_of(b.as_str());
    append_str(&mut out, ":");
    append_str(&mut out, path);
    string_of(&out)
}

/// The output of a program as one text: what it wrote to its standard
/// output, and on a line of its own what it wrote to its standard error.
pub open spec fn combined(stdout: Seq<char>, stderr: Seq<char>) -> Seq<char> {
    if stderr.len() == 0 {
        stdout
    } else if stdout.len() == 0 {
        stderr
    } else {
        stdout + "\n"@ + stderr
    }
}

/// Puts the two outputs of a program together.
pub fn combine_output(stdout: &str, stderr: &str) -> (r: String)
    ensures
        r@ == combined(stdout@, stderr@),
{
    let mut out = chars_of(stdout);
    let e = chars_of(stderr);
    if e.len() > 0 {
        if out.len() > 0 {
            append_str(&mut out, "\n");
        }
        append(&mut out, &e);
    }
    string_of(&out)
}

/// The name under which an installed package is looked up after the
/// package `requested` was asked for: none for a wheel file or a path,
/// `torch` for a PyTorch build, the name itself else.
pub open spec fn logged_name(requested: Seq<char>) -> Option<Seq<char>> {
    if ends_with(requested, ".whl"@) || has_char(requested, '/') {
        None
    } else if starts_with(requested, "torch-cu"@) {
        Some("torch"@)
    } else {
        Some(requested)
    }
}

/// The index of the first of the packages from `k` on with the name
/// `name`, or the number of packages.
pub open spec fn package_index(ps: Seq<PackageView>, name: Seq<char>, k: int) -> int
    decreases ps.len() - k,
{
    if k < 0 || k >= ps.len() {
        ps.len() as int
    } else if ps[k].name == name {
        k
    } else {
        package_index(ps, name, k + 1)
    }
}

/// The version under which a package is logged.
pub open spec fn logged_version(p: PackageView) -> Seq<char> {
    match p.version {
        Some(v) => v,
        None => "unknown"@,
    }
}

/// What is logged after the first `n` of the requested packages were
/// installed: for each that is looked up and found among the installed
/// packages, its name and version.
pub open spec fn logged(requested: Seq<Seq<char>>, installed: Seq<PackageView>, n: int) -> Seq<
    (Seq<char>, Seq<char>),
>
    decreases n,
{
    if n <= 0 {
        Seq::empty()
    } else {
        let prev = logged(requested, installed, n - 1);
        match logged_name(requested[n - 1]) {
            Some(name) => {
                let k = package_index(installed, name, 0);
                if k < installed.len() {
                    prev.push((installed[k].name, logged_version(installed[k])))
                } else {
                    prev
                }
            },
            None => prev,
        }
    }
}

/// The views of a sequence of pairs of strings.
pub open spec fn pair_views(v: Seq<(String, String)>) -> Seq<(Seq<char>, Seq<char>)> {
    Seq::new(v.len(), |i: int| (v[i].0@, v[i].1@))
}

fn find_package(ps: &Vec<PackageMetadata>, name: &Vec<char>) -> (k: usize)
    ensures
        k == package_index(package_views(ps@), name@, 0),
        k <= ps.len(),
{
    let mut k: usize = 0;
    while k < ps.len()
        invariant
            k <= ps.len(),
            package_index(package_views(ps@), name@, 0) == package_index(
                package_views(ps@),
                name@,
                k as int,
            ),
        decreases ps.len() - k,
    {
        assert(package_views(ps@)[k as int] == ps@[k as int]@);
        if same(&chars_of(ps[k].name.as_str()), name) {
            return k;
        }
        k += 1;
    }
    k
}

/// Says which installed packages are written to the log after the
/// packages `requested` were installed, with their versions.
pub fn packages_to_log(requested: &Vec<String>, installed: &Vec<PackageMetadata>) -> (r: Vec<
    (String, String),
>)
    ensures
        pair_views(r@) == logged(
            string_views(requested@),
            package_views(installed@),
            requested.len() as int,
        ),
{
    let mut out: Vec<(String, String)> = Vec::new();
    let ghost rs = string_views(requested@);
    let ghost ps = package_views(installed@);
    let mut i: usize = 0;
    proof {
        assert(pair_views(out@) =~= logged(rs, ps, 0));
    }
    while i < requested.len()
        invariant
            i <= requested.len(),
            rs == string_views(requested@),
            ps == package_views(installed@),
            pair_views(out@) == logged(rs, ps, i as int),
        decreases requested.len() - i,
    {
        assert(rs[i as int] == requested@[i as int]@);
        let r = chars_of(requested[i].as_str());
        let skip = has_suffix(&r, &chars_of(".whl")) || contains_char(&r, '/');
        if !skip {
            let name = if has_prefix_str(&r, "torch-cu") {
                chars_of("torch")
            } else {
                r
            };
            let k = find_package(installed, &name);
            if k < installed.len() {
                assert(ps[k as int] == installed@[k as int]@);
                let version = match &installed[k].version {
                    Some(v) => v.clone(),
                    None => lit("unknown"),
                };
                let entry = (installed[k].name.clone(), version);
                assert(pair_views(out@.push(entry)) =~= pair_views(out@).push(
                    (entry.0@, entry.1@),
                ));
                out.push(entry);
            }
        }
        i += 1;
    }
    out
}

/// By what a list of environments is sorted.
#[derive(Debug, Clone, Copy, PartialEq, Eq, Structural)]
pub enum EnvSort {
    /// By name, without regard to the case of letters.
    Name,
    /// By the time of the last registration, latest first.
    Date,
}

/// The key by which an environment is sorted.
pub open spec fn env_key(e: EnvView, by: EnvSort) -> KeyView {
    match by {
        EnvSort::Name => KeyView::Text(lowercase(e.name)),
        EnvSort::Date => KeyView::Number(e.updated_at),
    }
}

/// Those of the first `n` environments whose name holds `pattern`,
/// without regard to the case of letters; all of them where there is no
/// pattern.
pub open spec fn filtered(envs: Seq<EnvView>, pattern: Option<Seq<char>>, n: int) -> Seq<EnvView>
    decreases n,
{
    if n <= 0 {
        Seq::empty()
    } else if pattern.is_none() || contains_sub(
        lowercase(envs[n - 1].name),
        lowercase(pattern.unwrap()),
    ) {
        filtered(envs, pattern, n - 1).push(envs[n - 1])
    } else {
        filtered(envs, pattern, n - 1)
    }
}

/// The environments at the first `n` places of `order` that are
/// favorites (`favorite` set) or are not.
pub open spec fn picked(envs: Seq<EnvView>, order: Seq<usize>, favorite: bool, n: int) -> Seq<
    EnvView,
>
    decreases n,
{
    if n <= 0 {
        Seq::empty()
    } else if envs[order[n - 1] as int].is_favorite == favorite {
        picked(envs, order, favorite, n - 1).push(envs[order[n - 1] as int])
    } else {
        picked(envs, order, favorite, n - 1)
    }
}

/// The keys of environments.
pub open spec fn env_keys(envs: Seq<EnvView>, by: EnvSort) -> Seq<KeyView> {
    Seq::new(envs.len(), |i: int| env_key(envs[i], by))
}

/// The environments in the order of a listing: the favorites first, and
/// favorites and others each in the order of their keys.
pub open spec fn arranged(envs: Seq<EnvView>, by: EnvSort) -> Seq<EnvView> {
    let order = sorted_order(env_keys(envs, by), envs.len() as int, by == EnvSort::Date);
    picked(envs, order, true, order.len() as int) + picked(envs, order, false, order.len() as int)
}

/// The first `limit` of the rows; all of them where there is no limit.
pub open spec fn limited(rows: Seq<EnvView>, limit: Option<usize>) -> Seq<EnvView> {
    match limit {
        Some(n) => if n < rows.len() {
            rows.take(n as int)
        } else {
            rows
        },
        None => rows,
    }
}

/// The listing of the environments `envs`: those that the filter lets
/// through, the favorites first, in the order asked for, and not more
/// than the limit.
pub open spec fn listing(
    envs: Seq<EnvView>,
    pattern: Option<Seq<char>>,
    by: EnvSort,
    limit: Option<usize>,
) -> Seq<EnvView> {
    limited(arranged(filtered(envs, pattern, envs.len() as int), by), limit)
}

fn pick(envs: &Vec<Environment>, order: &Vec<usize>, favorite: bool, out: &mut Vec<Environment>)
    requires
        forall|i: int| 0 <= i < order.len() ==> #[trigger] order@[i] < envs.len(),
    ensures
        env_views(final(out)@) == env_views(old(out)@) + picked(
            env_views(envs@),
            order@,
            favorite,
            order.len() as int,
        ),
{
    let ghost before = env_views(out@);
    let ghost es = env_views(envs@);
    let mut i: usize = 0;
    proof {
        assert(env_views(out@) =~= before + picked(es, order@, favorite, 0));
    }
    while i < order.len()
        invariant
            i <= order.len(),
            es == env_views(envs@),
            forall|j: int| 0 <= j < order.len() ==> #[trigger] order@[j] < envs.len(),
            env_views(out@) == before + picked(es, order@, favorite, i as int),
        decreases order.len() - i,
    {
        let k = order[i];
        assert(es[k as int] == envs@[k as int]@);
        if envs[k].is_favorite == favorite {
            let e = envs[k].duplicate();
            assert(env_views(out@.push(e)) =~= env_views(out@).push(e@));
            assert(picked(es, order@, favorite, i + 1) == picked(
                es,
                order@,
                favorite,
                i as int,
            ).push(e@));
            assert(env_views(out@).push(e@) =~= before + picked(es, order@, favorite, i + 1));
            out.push(e);
        }
        i += 1;
    }
}

/// Lists environments: filtered by a part of their name, sorted with the
/// favorites first, and cut to a limit.
pub fn list_envs_with_status(
    envs: &Vec<Environment>,
    filter: Option<&str>,
    sort_by: EnvSort,
    limit: Option<usize>,
) -> (r: Vec<Environment>)
    ensures
        env_views(r@) == listing(
            env_views(envs@),
            match filter {
                Some(f) => Some(f@),
                None => None,
            },
            sort_by,
            limit,
        ),
{
    let ghost es = env_views(envs@);
    let ghost pattern = match filter {
        Some(f) => Some(f@),
        None => None,
    };
    let lowered = match filter {
        Some(f) => Some(lowercase_of(&chars_of(f))),
        None => None,
    };
    let mut kept: Vec<Environment> = Vec::new();
    let mut i: usize = 0;
    proof {
        assert(env_views(kept@) =~= filtered(es, pattern, 0));
    }
    while i < envs.len()
        invariant
            i <= envs.len(),
            es == env_views(envs@),
            pattern == (match filter {
                Some(f) => Some(f@),
                None => None,
            }),
            crate::text::opt_view(lowered) == (match pattern {
                Some(p) => Some(lowercase(p)),
                None => None,
            }),
            env_views(kept@) == filtered(es, pattern, i as int),
        decreases envs.len() - i,
    {
        assert(es[i as int] == envs@[i as int]@);
        let keep = match &lowered {
            Some(p) => {
                let name = lowercase_of(&chars_of(envs[i].name.as_str()));
                let found = find_sub_of(&name, p);
                proof {
                    lemma_find_sub(name@, p@);
                }
                found.is_some()
            },
            None => true,
        };
        if keep {
            let e = envs[i].duplicate();
            assert(env_views(kept@.push(e)) =~= env_views(kept@).push(e@));
            kept.push(e);
        }
        i += 1;
    }
    let ghost ks = env_views(kept@);
    let mut keys: Vec<SortKey> = Vec::new();
    let mut j: usize = 0;
    while j < kept.len()
        invariant
            j <= kept.len(),
            ks == env_views(kept@),
            keys.len() == j,
            forall|k: int| 0 <= k < j ==> (#[trigger] keys@[k])@ == env_key(ks[k], sort_by),
        decreases kept.len() - j,
    {
        assert(ks[j as int] == kept@[j as int]@);
        let key = match sort_by {
            EnvSort::Name => SortKey::Text(lowercase_of(&chars_of(kept[j].name.as_str()))),
            EnvSort::Date => SortKey::Number(kept[j].updated_at),
        };
        keys.push(key);
        j += 1;
    }
    assert(key_views(keys@) =~= env_keys(ks, sort_by));
    let descending = match sort_by {
        EnvSort::Date => true,
        EnvSort::Name => false,
    };
    let order = sort_by_key(&keys, descending);
    let mut out: Vec<Environment> = Vec::new();
    assert(env_views(out@) =~= Seq::<EnvView>::empty());
    pick(&kept, &order, true, &mut out);
    pick(&kept, &order, false, &mut out);
    assert(env_views(out@) =~= arranged(ks, sort_by));
    match limit {
        Some(n) => {
            if n < out.len() {
                out.truncate(n);
                assert(env_views(out@) =~= arranged(ks, sort_by).take(n as int));
            }
        },
        None => {},
    }
    out
}

/// The mark of success: a green check.
pub open spec fn check_mark() -> Seq<char> {
    in_green("✓"@)
}

/// What is said after environments were imported.
pub open spec fn import_summary_text(imported: nat, skipped: nat) -> Seq<char> {
    "\n"@ + check_mark() + " Imported "@ + decimal(imported) + " environment"@
        + crate::types::plural(imported) + ", skipped "@ + decimal(skipped) + "."@
}

/// Says how many environments were imported and how many were skipped.
pub fn import_summary(imported: usize, skipped: usize) -> (r: String)
    ensures
        r@ == import_summary_text(imported as nat, skipped as nat),
{
    let mut out = chars_of("\n");
    let mark = green("✓");
    append_str(&mut out, mark.as_str());
    append_str(&mut out, " Imported ");
    append(&mut out, &decimal_of(imported as u64));
    append_str(&mut out, " environment");
    append_str(&mut out, crate::types::plural_of(imported));
    append_str(&mut out, ", skipped ");
    append(&mut out, &decimal_of(skipped as u64));
    append_str(&mut out, ".");
    assert(out@ =~= import_summary_text(imported as nat, skipped as nat));
    string_of(&out)
}

/// The tag of a comment: the environment that it is about, or `General`.
pub open spec fn comment_tag_text(env_name: Option<Seq<char>>) -> Seq<char> {
    match env_name {
        Some(n) => "Env: "@ + n,
        None => "General"@,
    }
}

/// The tag under which a comment is stored.
pub fn comment_tag(env_name: Option<&str>) -> (r: String)
    ensures
        r@ == comment_tag_text(
            match env_name {
                Some(n) => Some(n@),
                None => None,
            },
        ),
{
    match env_name {
        Some(n) => {
            let mut out = chars_of("Env: ");
            append_str(&mut out, n);
            string_of(&out)
        },
        None => lit("General"),
    }
}


/// What is said where no environment can be made out.
pub open spec fn no_environment_text() -> Seq<char> {
    "No environment specified. Activate one with 'za <env>' or pass its name as an argument."@
}

/// The environment that a command is about: the one named; else the
/// one registered at the path of the active environment; else the one
/// named like the directory of the active environment.
pub open spec fn resolved_env(
    name: Option<Seq<char>>,
    virtual_env: Option<Seq<char>>,
    v: RegistryView,
) -> Result<Seq<char>, Seq<char>> {
    match name {
        Some(n) => Ok(n),
        None => match virtual_env {
            Some(p) => {
                let e = env_by_path(v.envs, v.envs.len() as int, p);
                if e >= 0 {
                    Ok(v.envs[e].name)
                } else {
                    match crate::text::file_name(p) {
                        Some(base) => Ok(base),
                        None => Err(no_environment_text()),
                    }
                }
            },
            None => Err(no_environment_text()),
        },
    }
}

/// The views of the two sides of a result.
pub open spec fn text_result_view(r: Result<String, String>) -> Result<Seq<char>, Seq<char>> {
    match r {
        Ok(s) => Ok(s@),
        Err(e) => Err(e@),
    }
}

/// Makes out the environment that a command is about, from the name
/// given, if any, and the path of the active environment, if any.
pub fn resolve_env_name(name: Option<&str>, virtual_env: Option<&str>, registry: &Registry) -> (r:
    Result<String, String>)
    ensures
        text_result_view(r) == resolved_env(
            match name {
                Some(n) => Some(n@),
                None => None,
            },
            match virtual_env {
                Some(p) => Some(p@),
                None => None,
            },
            registry@,
        ),
{
    match name {
        Some(n) => Ok(lit(n)),
        None => match virtual_env {
            Some(p) => match registry.get_env_name_by_path(p) {
                Some(found) => Ok(found),
                None => match crate::text::file_name_of(p) {
                    Some(base) => Ok(base),
                    None => Err(
                        lit(
                            "No environment specified. Activate one with 'za <env>' or pass its name as an argument.",
                        ),
                    ),
                },
            },
            None => Err(
                lit(
                    "No environment specified. Activate one with 'za <env>' or pass its name as an argument.",
                ),
            ),
        },
    }
}

/// How a link is shown in a list: the environment, a star for a link
/// that the user made, the tag, whether it is the default, the path of
/// the environment, and how often the environment was activated.
/// `last` is the day of the last activation, rendered by the caller.
pub open spec fn link_entry(
    env_name: Seq<char>,
    env_path: Seq<char>,
    tag: Option<Seq<char>>,
    is_default: bool,
    link_type: LinkType,
    count: u64,
    last: Option<Seq<char>>,
) -> Seq<char> {
    "  • "@ + env_name + (if link_type == LinkType::User {
        " ★"@
    } else {
        Seq::empty()
    }) + (match tag {
        Some(t) => " ("@ + t + ")"@,
        None => Seq::empty(),
    }) + (if is_default {
        " [default]"@
    } else {
        Seq::empty()
    }) + " → "@ + env_path + (if count > 0 {
        " ["@ + decimal(count as nat) + "x"@ + (match last {
            Some(d) => ", last: "@ + d,
            None => Seq::empty(),
        }) + "]"@
    } else {
        Seq::empty()
    })
}

/// Renders one link for a list of links.
pub fn render_link_entry(
    env_name: &str,
    env_path: &str,
    tag: &Option<String>,
    is_default: bool,
    link_type: LinkType,
    count: u64,
    last: &Option<String>,
) -> (r: String)
    ensures
        r@ == link_entry(
            env_name@,
            env_path@,
            opt_str_view(*tag),
            is_default,
            link_type,
            count,
            opt_str_view(*last),
        ),
{
    let mut out = chars_of("  • ");
    append_str(&mut out, env_name);
    match link_type {
        LinkType::User => {
            append_str(&mut out, " ★");
        },
        LinkType::Activated => {},
    }
    match tag {
        Some(t) => {
            append_str(&mut out, " (");
            append_str(&mut out, t.as_str());
            append_str(&mut out, ")");
        },
        None => {},
    }
    if is_default {
        append_str(&mut out, " [default]");
    }
    append_str(&mut out, " → ");
    append_str(&mut out, env_path);
    if count > 0 {
        append_str(&mut out, " [");
        append(&mut out, &decimal_of(count));
        append_str(&mut out, "x");
        match last {
            Some(d) => {
                append_str(&mut out, ", last: ");
                append_str(&mut out, d.as_str());
            },
            None => {},
        }
        append_str(&mut out, "]");
    }
    assert(out@ =~= link_entry(
        env_name@,
        env_path@,
        opt_str_view(*tag),
        is_default,
        link_type,
        count,
        opt_str_view(*last),
    ));
    string_of(&out)
}


/// Whether a text has the form of an identifier as it is written out:
/// 36 characters, with `-` at the places 8, 13, 18 and 23, and `4` at
/// the place 14.
pub open spec fn identifier_form(s: Seq<char>) -> bool {
    s.len() == 36 && s[8] == '-' && s[13] == '-' && s[18] == '-' && s[23] == '-' && s[14] == '4'
}

/// `Uuid::new_v4` makes an identifier from the random numbers of the
/// operating system, and `to_string` writes an identifier out in
/// hyphenated form: 32 lowercase hexadecimal digits in groups of 8, 4,
/// 4, 4 and 12, of which the first of the third group is the version, 4.
/// Which identifier comes is not said; the call fails where the
/// operating system gives no random numbers.
#[verifier::external_body]
fn new_identifier() -> (r: String)
    ensures
        identifier_form(r@),
{
    uuid::Uuid::new_v4().to_string()
}

/// Whether one of the notes carries an identifier of the form in which
/// new ones are made.
pub open spec fn identifier_in_use(notes: Seq<NoteView>) -> bool {
    exists|u: Seq<char>| identifier_form(u) && note_index(notes, notes.len() as int, u) >= 0
}

/// The note that is written for a comment.
pub open spec fn comment_note(
    uuid: Seq<char>,
    project_path: Seq<char>,
    env_id: Option<u64>,
    message: Seq<char>,
    tag: Seq<char>,
    now: i64,
) -> NoteView {
    NoteView { uuid, project_path, env_id, message, tag: Some(tag), created_at: now }
}

/// Writes a comment on a project directory, about an environment where
/// one is named, under a new identifier. Returns the identifier.
///
/// The comment is refused as not found exactly where the environment is
/// named and not registered. Else it is refused only where the new
/// identifier is that of a note that is there already; so it is written
/// where no note carries an identifier of that form.
pub fn log_comment(
    registry: &mut Registry,
    env_name: Option<&EnvName>,
    project_path: &str,
    message: &str,
    now: i64,
) -> (r: Result<String, RegistryError>)
    requires
        old(registry)@.wf(),
    ensures
        final(registry)@.wf(),
        match r {
            Ok(uuid) => identifier_form(uuid@) && note_index(
                old(registry)@.notes,
                old(registry)@.notes.len() as int,
                uuid@,
            ) < 0 && (env_name matches Some(n) ==> old(registry)@.id_of(n@).is_some())
                && final(registry)@ == (RegistryView {
                notes: old(registry)@.notes.push(
                    comment_note(
                        uuid@,
                        project_path@,
                        match env_name {
                            Some(n) => old(registry)@.id_of(n@),
                            None => None,
                        },
                        message@,
                        comment_tag_text(
                            match env_name {
                                Some(n) => Some(n@),
                                None => None,
                            },
                        ),
                        now,
                    ),
                ),
                ..old(registry)@
            }),
            Err(e) => final(registry)@ == old(registry)@ && (e == RegistryError::NotFound
                || e == RegistryError::UuidTaken) && (e == RegistryError::NotFound <==> (
            env_name matches Some(n) && old(registry)@.id_of(n@).is_none())) && (e
                == RegistryError::UuidTaken ==> identifier_in_use(old(registry)@.notes)),
        },
        (env_name matches Some(n) ==> old(registry)@.id_of(n@).is_some()) && !identifier_in_use(
            old(registry)@.notes,
        ) ==> r.is_ok(),
{
    let env_id = match env_name {
        Some(n) => match registry.get_env_id(n.as_str()) {
            Some(id) => Some(id),
            None => {
                return Err(RegistryError::NotFound);
            },
        },
        None => None,
    };
    let tag = comment_tag(
        match env_name {
            Some(n) => Some(n.as_str()),
            None => None,
        },
    );
    let uuid = new_identifier();
    proof {
        match env_id {
            Some(id) => {
                let v = registry@;
                let n = env_name.unwrap()@;
                crate::registry::lemma_env_by_name(v.envs, v.envs.len() as int, n);
                assert(v.envs[crate::registry::env_by_name(v.envs, v.envs.len() as int, n)].id
                    == id);
                assert(v.has_env(id));
            },
            None => {},
        }
    }
    match registry.add_comment(
        uuid.as_str(),
        project_path,
        env_id,
        message,
        Some(tag.as_str()),
        now,
    ) {
        Ok(_) => Ok(uuid),
        Err(e) => Err(e),
    }
}

/// Writes a note about an environment, under a new identifier. Returns
/// the identifier.
///
/// The note is refused as not found exactly where the environment is not
/// registered. Else it is refused only where the new identifier is that
/// of a note that is there already.
pub fn add_env_note(registry: &mut Registry, env_name: &EnvName, note: &str, now: i64) -> (r:
    Result<String, RegistryError>)
    requires
        old(registry)@.wf(),
    ensures
        final(registry)@.wf(),
        match r {
            Ok(uuid) => identifier_form(uuid@) && old(registry)@.id_of(env_name@).is_some()
                && final(registry)@ == (RegistryView {
                notes: old(registry)@.notes.push(
                    comment_note(
                        uuid@,
                        Seq::empty(),
                        old(registry)@.id_of(env_name@),
                        note@,
                        "note"@,
                        now,
                    ),
                ),
                ..old(registry)@
            }),
            Err(e) => final(registry)@ == old(registry)@ && (e == RegistryError::NotFound
                || e == RegistryError::UuidTaken) && (e == RegistryError::NotFound <==> old(
                registry,
            )@.id_of(env_name@).is_none()) && (e == RegistryError::UuidTaken
                ==> identifier_in_use(old(registry)@.notes)),
        },
        old(registry)@.id_of(env_name@).is_some() && !identifier_in_use(old(registry)@.notes)
            ==> r.is_ok(),
{
    let env_id = match registry.get_env_id(env_name.as_str()) {
        Some(id) => id,
        None => {
            return Err(RegistryError::NotFound);
        },
    };
    let uuid = new_identifier();
    proof {
        let v = registry@;
        crate::registry::lemma_env_by_name(v.envs, v.envs.len() as int, env_name@);
        assert(v.envs[crate::registry::env_by_name(v.envs, v.envs.len() as int, env_name@)].id
            == env_id);
        assert(v.has_env(env_id));
    }
    let none = String::new();
    match registry.add_comment(uuid.as_str(), none.as_str(), Some(env_id), note, Some("note"), now) {
        Ok(_) => Ok(uuid),
        Err(e) => Err(e),
    }
}


/// Renders one link for a list of links, with the day of the last
/// activation in the time zone of the machine.
pub fn link_entry_answer(c: &crate::registry::Candidate) -> (r: String)
    ensures
        exists|last: Option<Seq<char>>|
            r@ == link_entry(
                c.env_name@,
                c.env_path@,
                opt_str_view(c.tag),
                c.is_default,
                c.link_type,
                c.activation_count,
                last,
            ) && (c.last_activated_at.is_none() ==> last.is_none()),
{
    let last = crate::clock::time_text(c.last_activated_at, true);
    let r = render_link_entry(
        c.env_name.as_str(),
        c.env_path.as_str(),
        &c.tag,
        c.is_default,
        c.link_type,
        c.activation_count,
        &last,
    );
    assert(r@ == link_entry(
        c.env_name@,
        c.env_path@,
        opt_str_view(c.tag),
        c.is_default,
        c.link_type,
        c.activation_count,
        opt_str_view(last),
    ) && (c.last_activated_at.is_none() ==> opt_str_view(last).is_none()));
    r
}


/// What became of an environment that was to be removed.
#[derive(Debug, Clone, Copy, PartialEq, Eq, Structural)]
pub enum Removal {
    /// It was removed from the disk and from the registry.
    Removed,
    /// It was not registered; its directory was removed from the disk.
    OrphanRemoved,
    /// It was removed from the registry, and its files were kept.
    Untracked,
}

/// What is said of an environment that was removed.
pub open spec fn removal_text(name: Seq<char>, what: Removal) -> Seq<char> {
    match what {
        Removal::Removed => check_mark() + " Environment '"@ + name
            + "' removed from disk and registry."@,
        Removal::OrphanRemoved => check_mark() + " Orphaned directory '"@ + name
            + "' removed from disk (was not in registry)."@,
        Removal::Untracked => check_mark() + " Environment '"@ + name
            + "' removed from registry (files kept on disk)."@,
    }
}

/// Says what became of an environment that was to be removed.
pub fn removal_message(name: &str, what: Removal) -> (r: String)
    ensures
        r@ == removal_text(name@, what),
{
    let mark = green("✓");
    let mut out = chars_of(mark.as_str());
    match what {
        Removal::Removed => {
            append_str(&mut out, " Environment '");
            append_str(&mut out, name);
            append_str(&mut out, "' removed from disk and registry.");
        },
        Removal::OrphanRemoved => {
            append_str(&mut out, " Orphaned directory '");
            append_str(&mut out, name);
            append_str(&mut out, "' removed from disk (was not in registry).");
        },
        Removal::Untracked => {
            append_str(&mut out, " Environment '");
            append_str(&mut out, name);
            append_str(&mut out, "' removed from registry (files kept on disk).");
        },
    }
    assert(out@ =~= removal_text(name@, what));
    string_of(&out)
}

/// What is said after a comment was written.
pub open spec fn comment_logged_text(env_name: Option<Seq<char>>, uuid: Seq<char>) -> Seq<char> {
    check_mark() + " comment logged to "@ + (match env_name {
        Some(n) => in_cyan(in_bold(n)),
        None => "project"@,
    }) + " history (UUID: "@ + in_dim(uuid) + ")."@
}

/// Says that a comment was written, and under which identifier.
pub fn comment_logged_message(env_name: Option<&str>, uuid: &str) -> (r: String)
    ensures
        r@ == comment_logged_text(
            match env_name {
                Some(n) => Some(n@),
                None => None,
            },
            uuid@,
        ),
{
    let mark = green("✓");
    let mut out = chars_of(mark.as_str());
    append_str(&mut out, " comment logged to ");
    match env_name {
        Some(n) => {
            let b = bold(n);
            let c = cyan(b.as_str());
            append_str(&mut out, c.as_str());
        },
        None => {
            append_str(&mut out, "project");
        },
    }
    append_str(&mut out, " history (UUID: ");
    let d = dimmed(uuid);
    append_str(&mut out, d.as_str());
    append_str(&mut out, ").");
    assert(out@ =~= comment_logged_text(
        match env_name {
            Some(n) => Some(n@),
            None => None,
        },
        uuid@,
    ));
    string_of(&out)
}

/// What is said after an environment was created.
pub open spec fn created_text(name: Seq<char>, id: u64) -> Seq<char> {
    "Created environment "@ + name + " (ID: "@ + decimal(id as nat) + ")"@
}

/// Says that an environment was created.
pub fn created_message(name: &str, id: u64) -> (r: String)
    ensures
        r@ == created_text(name@, id),
{
    let mut out = chars_of("Created environment ");
    append_str(&mut out, name);
    append_str(&mut out, " (ID: ");
    append(&mut out, &decimal_of(id));
    append_str(&mut out, ")");
    assert(out@ =~= created_text(name@, id));
    string_of(&out)
}

/// What is said of an environment that is not registered.
pub open spec fn not_found_text(name: Seq<char>) -> Seq<char> {
    "Environment '"@ + name + "' not found"@
}

/// Says that an environment is not registered.
pub fn not_found_message(name: &str) -> (r: String)
    ensures
        r@ == not_found_text(name@),
{
    let mut out = chars_of("Environment '");
    append_str(&mut out, name);
    append_str(&mut out, "' not found");
    string_of(&out)
}

/// What is said after a note was written about an environment.
pub open spec fn note_added_text(name: Seq<char>) -> Seq<char> {
    "Note added to environment '"@ + name + "'"@
}

/// Says that a note was written about an environment.
pub fn note_added_message(name: &str) -> (r: String)
    ensures
        r@ == note_added_text(name@),
{
    let mut out = chars_of("Note added to environment '");
    append_str(&mut out, name);
    append_str(&mut out, "'");
    string_of(&out)
}


/// `which::which` looks a program up in the directories of `PATH`, as
/// the shell would, and returns its path or an error. Whether `uv` is
/// found depends on the environment and on what is on the disk; nothing
/// is said of the answer.
#[verifier::external_body]
fn uv_available() -> (b: bool) {
    which::which("uv").is_ok()
}

/// Composes the call of the installer that installs `packages`, with
/// `uv` where it is found on the machine and with `pip` else.
pub fn choose_install_command(packages: &Vec<String>, opts: &InstallOptions) -> (r: (
    String,
    Vec<String>,
))
    ensures
        exists|use_uv: bool|
            (r.0@, string_views(r.1@)) == installer_command(
                install_arguments(string_views(packages@), *opts),
                use_uv,
            ),
{
    let use_uv = uv_available();
    let r = install_command(packages, opts, use_uv);
    assert((r.0@, string_views(r.1@)) == installer_command(
        install_arguments(string_views(packages@), *opts),
        use_uv,
    ));
    r
}

/// Composes the call of the installer that uninstalls `packages`, with
/// `uv` where it is found on the machine and with `pip` else.
pub fn choose_uninstall_command(packages: &Vec<String>) -> (r: (String, Vec<String>))
    ensures
        exists|use_uv: bool|
            (r.0@, string_views(r.1@)) == installer_command(
                uninstall_arguments(string_views(packages@), use_uv),
                use_uv,
            ),
{
    let use_uv = uv_available();
    let r = uninstall_command(packages, use_uv);
    assert((r.0@, string_views(r.1@)) == installer_command(
        uninstall_arguments(string_views(packages@), use_uv),
        use_uv,
    ));
    r
}

} // verus!
