//! The template editor's command language: parsing of one input line into
//! a command, and the edits that commands make to the list of steps.

use crate::templates::{template_package_views, TemplatePackage, TemplatePackageView};
use crate::text::{
    append, append_str, chars_of, copy, decimal, decimal_of, find_char, first_index,
    first_index_of, first_line_with, first_line_with_of, has_prefix_str, lemma_string_views_push,
    lines, lines_of, lowercase, opt_str_view, parse_signed, parse_signed_of, parse_unsigned,
    parse_unsigned_of, same, signed_decimal, signed_decimal_of, slice, starts_with, str_views,
    string_of, string_views, strip, strip_of, through_last, through_last_of, trim, trim_of,
    views, without_leading, without_leading_of, words, words_of, CharClass,
};
use vstd::prelude::*;
use vstd::string::StrSliceExecFns;

verus! {

/// A package of a template.
#[derive(Clone, Debug)]
pub struct Pkg {
    pub name: String,
    pub version: String,
    /// `pypi` or `wheel`.
    pub install_type: String,
}

/// One install step of a template: packages that are installed together,
/// with the same arguments.
#[derive(Clone, Debug)]
pub struct Step {
    /// Such as `--index-url https://...`.
    pub install_args: Option<String>,
    pub packages: Vec<Pkg>,
}

/// Where the packages of an `add` go.
#[derive(Clone, Copy, Debug, PartialEq, Eq, Structural)]
pub enum StepMode {
    /// Into the step with this index.
    At(usize),
    /// Into a new step after this one.
    After(usize),
    /// Into a new step before this one.
    Before(usize),
    /// Into a new step at the end.
    New,
}

/// The arguments of an `add` command.
#[derive(Debug)]
pub struct AddArgs {
    pub packages: Vec<String>,
    pub wheel_path: Option<String>,
    pub index_url: Option<String>,
    pub step_mode: StepMode,
}

/// A command of the template editor.
#[derive(Debug)]
pub enum ReplCmd {
    Help(Option<String>),
    List,
    Add(AddArgs),
    Drop(String),
    Save,
    Quit,
}

/// The arguments of an `add` command, as characters.
pub struct AddSpec {
    pub packages: Seq<Seq<char>>,
    pub wheel_path: Option<Seq<char>>,
    pub index_url: Option<Seq<char>>,
    pub step_mode: StepMode,
}

/// A command of the template editor, as characters.
pub enum CmdSpec {
    Help(Option<Seq<char>>),
    List,
    Add(AddSpec),
    Drop(Seq<char>),
    Save,
    Quit,
}

impl View for AddArgs {
    type V = AddSpec;

    open spec fn view(&self) -> AddSpec {
        AddSpec {
            packages: string_views(self.packages@),
            wheel_path: crate::text::opt_str_view(self.wheel_path),
            index_url: crate::text::opt_str_view(self.index_url),
            step_mode: self.step_mode,
        }
    }
}

impl View for ReplCmd {
    type V = CmdSpec;

    open spec fn view(&self) -> CmdSpec {
        match self {
            ReplCmd::Help(t) => CmdSpec::Help(crate::text::opt_str_view(*t)),
            ReplCmd::List => CmdSpec::List,
            ReplCmd::Add(a) => CmdSpec::Add(a@),
            ReplCmd::Drop(t) => CmdSpec::Drop(t@),
            ReplCmd::Save => CmdSpec::Save,
            ReplCmd::Quit => CmdSpec::Quit,
        }
    }
}

/// The line without the name of a tool before the command: the first of
/// `zen `, `pip `, `uv pip `, `uv `, `conda ` that the line starts with
/// is dropped.
pub open spec fn without_tool_prefix(line: Seq<char>) -> Seq<char> {
    if starts_with(line, "zen "@) {
        line.skip("zen "@.len() as int)
    } else if starts_with(line, "pip "@) {
        line.skip("pip "@.len() as int)
    } else if starts_with(line, "uv pip "@) {
        line.skip("uv pip "@.len() as int)
    } else if starts_with(line, "uv "@) {
        line.skip("uv "@.len() as int)
    } else if starts_with(line, "conda "@) {
        line.skip("conda "@.len() as int)
    } else {
        line
    }
}

/// Strips a tool's name from the front of a line, so that
/// `zen install X` reads as `install X`.
pub fn strip_tool_prefix(line: &str) -> (r: &str)
    ensures
        r@ == without_tool_prefix(line@),
{
    let v = chars_of(line);
    let n = v.len();
    if has_prefix_str(&v, "zen ") {
        let k = "zen ".unicode_len();
        line.substring_char(k, n)
    } else if has_prefix_str(&v, "pip ") {
        let k = "pip ".unicode_len();
        line.substring_char(k, n)
    } else if has_prefix_str(&v, "uv pip ") {
        let k = "uv pip ".unicode_len();
        line.substring_char(k, n)
    } else if has_prefix_str(&v, "uv ") {
        let k = "uv ".unicode_len();
        line.substring_char(k, n)
    } else if has_prefix_str(&v, "conda ") {
        let k = "conda ".unicode_len();
        line.substring_char(k, n)
    } else {
        line
    }
}

/// The step that a signed index stands for among `num_steps` steps: a
/// negative index counts from the end (-1 is the last step), and one that
/// reaches before the first step is refused.
pub open spec fn resolved_index(n: int, num_steps: nat) -> Result<usize, Seq<char>> {
    if n < 0 {
        if num_steps + n < 0 {
            Err(
                "Index "@ + signed_decimal(n) + " is out of range (only "@ + decimal(num_steps)
                    + " steps)."@,
            )
        } else {
            Ok((num_steps + n) as usize)
        }
    } else {
        Ok(n as usize)
    }
}

/// The views of the two sides of a result.
pub open spec fn index_result_view(r: Result<usize, String>) -> Result<usize, Seq<char>> {
    match r {
        Ok(n) => Ok(n),
        Err(e) => Err(e@),
    }
}

/// Resolves a signed index relative to `num_steps`: -1 is the last step,
/// -2 the one before it, and so on.
pub fn resolve_index(n: isize, num_steps: usize, _flag: &str) -> (r: Result<usize, String>)
    ensures
        index_result_view(r) == resolved_index(n as int, num_steps as nat),
{
    if n < 0 {
        let pos: i128 = num_steps as i128 + n as i128;
        if pos < 0 {
            let mut msg = chars_of("Index ");
            append(&mut msg, &signed_decimal_of(n as i128));
            append_str(&mut msg, " is out of range (only ");
            append(&mut msg, &decimal_of(num_steps as u64));
            append_str(&mut msg, " steps).");
            Err(string_of(&msg))
        } else {
            Ok(pos as usize)
        }
    } else {
        Ok(n as usize)
    }
}

/// The step that the value of a positioning flag stands for: the value,
/// without quotes around it, is a signed decimal number, resolved among
/// `num_steps` steps.
pub open spec fn step_flag(val: Seq<char>, num_steps: nat, flag: Seq<char>) -> Result<
    usize,
    Seq<char>,
> {
    match parse_signed(
        strip(strip(val, CharClass::Only('"')), CharClass::Only('\'')),
        isize::MIN as int,
        isize::MAX as int,
    ) {
        None => Err(flag + " requires a numeric step index."@),
        Some(n) => resolved_index(n, num_steps),
    }
}

/// Parses the value of a positioning flag (`--at`, `--after`,
/// `--before`): quotes are stripped, the number is read, and a negative
/// index is resolved.
pub fn parse_step_flag(val: &str, num_steps: usize, flag: &str) -> (r: Result<usize, String>)
    ensures
        index_result_view(r) == step_flag(val@, num_steps as nat, flag@),
{
    let v = strip_of(&chars_of(val), CharClass::Only('"'));
    let v = strip_of(&v, CharClass::Only('\''));
    match parse_signed_of(&v, isize::MIN as i128, isize::MAX as i128) {
        None => {
            let mut msg = chars_of(flag);
            append_str(&mut msg, " requires a numeric step index.");
            Err(string_of(&msg))
        },
        Some(n) => resolve_index(n as isize, num_steps, flag),
    }
}

/// The arguments with which the scan of an `add` command starts.
pub open spec fn no_add_args() -> AddSpec {
    AddSpec {
        packages: Seq::empty(),
        wheel_path: None,
        index_url: None,
        step_mode: StepMode::New,
    }
}

/// The kind of word that stands at a place of an `add` command.
#[derive(Clone, Copy, Debug, PartialEq, Eq, Structural)]
pub enum AddWord {
    IndexUrl,
    Wheel,
    At,
    After,
    Before,
    UnknownFlag,
    Package,
}

/// The kind of the word `p`.
pub open spec fn add_word(p: Seq<char>) -> AddWord {
    if p == "--index-url"@ || p == "--index"@ || p == "-i"@ {
        AddWord::IndexUrl
    } else if p == "--wheel"@ || p == "-w"@ {
        AddWord::Wheel
    } else if p == "--at"@ || p == "--step"@ || p == "-s"@ {
        AddWord::At
    } else if p == "--after"@ {
        AddWord::After
    } else if p == "--before"@ {
        AddWord::Before
    } else if starts_with(p, "--"@) {
        AddWord::UnknownFlag
    } else {
        AddWord::Package
    }
}

/// What is said when the flag `w` stands last, without its value.
pub open spec fn missing_value_text(w: AddWord) -> Seq<char> {
    match w {
        AddWord::IndexUrl => "--index-url requires a URL argument."@,
        AddWord::Wheel => "--wheel requires a path argument."@,
        AddWord::At => "--at requires a step index."@,
        AddWord::After => "--after requires a step index."@,
        _ => "--before requires a step index."@,
    }
}

/// The name under which the positioning flag `w` is reported.
pub open spec fn flag_name(w: AddWord) -> Seq<char> {
    match w {
        AddWord::At => "--at"@,
        AddWord::After => "--after"@,
        _ => "--before"@,
    }
}

/// The arguments after the flag `w` with the value `val` is taken in.
pub open spec fn with_flag(acc: AddSpec, w: AddWord, val: Seq<char>, num_steps: nat) -> Result<
    AddSpec,
    Seq<char>,
> {
    match w {
        AddWord::IndexUrl => Ok(AddSpec { index_url: Some(val), ..acc }),
        AddWord::Wheel => Ok(AddSpec { wheel_path: Some(val), ..acc }),
        _ => match step_flag(val, num_steps, flag_name(w)) {
            Err(e) => Err(e),
            Ok(n) => Ok(
                AddSpec {
                    step_mode: match w {
                        AddWord::At => StepMode::At(n),
                        AddWord::After => StepMode::After(n),
                        _ => StepMode::Before(n),
                    },
                    ..acc
                },
            ),
        },
    }
}

/// The result of scanning the words of an `add` command from word `i`
/// on, with `acc` gathered so far.
///
/// A flag takes the next word as its value; a later flag of a kind
/// replaces an earlier one. A word that starts with `--` and is no known
/// flag is refused. Every other word is a package. At the end there must
/// be a package or a wheel.
pub open spec fn add_scan(parts: Seq<Seq<char>>, num_steps: nat, i: int, acc: AddSpec) -> Result<
    AddSpec,
    Seq<char>,
>
    decreases parts.len() - i,
{
    if i < 0 || i >= parts.len() {
        if acc.packages.len() == 0 && acc.wheel_path.is_none() {
            Err("No packages specified. Usage: add <pkg...>"@)
        } else {
            Ok(acc)
        }
    } else {
        match add_word(parts[i]) {
            AddWord::Package => add_scan(
                parts,
                num_steps,
                i + 1,
                AddSpec { packages: acc.packages.push(parts[i]), ..acc },
            ),
            AddWord::UnknownFlag => Err(
                "Unknown flag '"@ + parts[i] + "'. See help add for usage."@,
            ),
            w => if i + 1 >= parts.len() {
                Err(missing_value_text(w))
            } else {
                match with_flag(acc, w, parts[i + 1], num_steps) {
                    Err(e) => Err(e),
                    Ok(next) => add_scan(parts, num_steps, i + 2, next),
                }
            },
        }
    }
}

/// What an `add` command with the words `parts` (the command first)
/// parses to.
pub open spec fn parsed_add(parts: Seq<Seq<char>>, num_steps: nat) -> Result<AddSpec, Seq<char>> {
    if parts.len() < 2 {
        Err("Usage: add <package> [package...] [--index-url URL] [--at N]"@)
    } else {
        add_scan(parts, num_steps, 1, no_add_args())
    }
}

/// What an input line with the words `parts` parses to when `lowered`
/// is the command, in lowercase, and `topic` what help is asked about.
pub open spec fn parsed_command(
    parts: Seq<Seq<char>>,
    num_steps: nat,
    lowered: Seq<char>,
    topic: Option<Seq<char>>,
) -> Result<CmdSpec, Seq<char>> {
    if lowered == "help"@ || lowered == "h"@ || lowered == "?"@ {
        Ok(CmdSpec::Help(topic))
    } else if lowered == "list"@ || lowered == "ls"@ {
        Ok(CmdSpec::List)
    } else if lowered == "save"@ {
        Ok(CmdSpec::Save)
    } else if lowered == "quit"@ || lowered == "exit"@ || lowered == "q"@ {
        Ok(CmdSpec::Quit)
    } else if lowered == "drop"@ || lowered == "remove"@ || lowered == "rm"@ {
        if parts.len() < 2 {
            Err("Usage: drop <package_name | step_number>"@)
        } else {
            Ok(CmdSpec::Drop(parts[1]))
        }
    } else if lowered == "add"@ || lowered == "install"@ {
        match parsed_add(parts, num_steps) {
            Ok(a) => Ok(CmdSpec::Add(a)),
            Err(e) => Err(e),
        }
    } else {
        Err("Unknown command '"@ + lowered + "'. Type help for help."@)
    }
}

/// What an input line with the words `parts` parses to. The command is
/// the first word, in any case of letters; an empty line gives an empty
/// message.
pub open spec fn parsed_line(parts: Seq<Seq<char>>, num_steps: nat) -> Result<CmdSpec, Seq<char>> {
    if parts.len() == 0 {
        Err(Seq::empty())
    } else {
        parsed_command(
            parts,
            num_steps,
            lowercase(parts[0]),
            if parts.len() >= 2 {
                Some(lowercase(parts[1]))
            } else {
                None
            },
        )
    }
}

/// The views of the two sides of a result.
pub open spec fn cmd_result_view(r: Result<ReplCmd, String>) -> Result<CmdSpec, Seq<char>> {
    match r {
        Ok(c) => Ok(c@),
        Err(e) => Err(e@),
    }
}

fn is_str(v: &Vec<char>, s: &str) -> (b: bool)
    ensures
        b == (v@ == s@),
{
    crate::text::same_str(v, s)
}

fn add_word_of(p: &Vec<char>) -> (w: AddWord)
    ensures
        w == add_word(p@),
{
    if is_str(p, "--index-url") || is_str(p, "--index") || is_str(p, "-i") {
        AddWord::IndexUrl
    } else if is_str(p, "--wheel") || is_str(p, "-w") {
        AddWord::Wheel
    } else if is_str(p, "--at") || is_str(p, "--step") || is_str(p, "-s") {
        AddWord::At
    } else if is_str(p, "--after") {
        AddWord::After
    } else if is_str(p, "--before") {
        AddWord::Before
    } else if has_prefix_str(p, "--") {
        AddWord::UnknownFlag
    } else {
        AddWord::Package
    }
}

fn missing_value_text_of(w: AddWord) -> (s: &'static str)
    ensures
        s@ == missing_value_text(w),
{
    match w {
        AddWord::IndexUrl => "--index-url requires a URL argument.",
        AddWord::Wheel => "--wheel requires a path argument.",
        AddWord::At => "--at requires a step index.",
        AddWord::After => "--after requires a step index.",
        _ => "--before requires a step index.",
    }
}

fn flag_name_of(w: AddWord) -> (s: &'static str)
    ensures
        s@ == flag_name(w),
{
    match w {
        AddWord::At => "--at",
        AddWord::After => "--after",
        _ => "--before",
    }
}

/// Parses the words of an `add` or `install` command.
pub fn parse_add_args(parts: &[&str], num_steps: usize) -> (r: Result<ReplCmd, String>)
    ensures
        cmd_result_view(r) == match parsed_add(str_views(parts@), num_steps as nat) {
            Ok(a) => Ok(CmdSpec::Add(a)),
            Err(e) => Err(e),
        },
{
    if parts.len() < 2 {
        return Err(
            string_of(&chars_of("Usage: add <package> [package...] [--index-url URL] [--at N]")),
        );
    }
    let mut packages: Vec<String> = Vec::new();
    let mut index_url: Option<String> = None;
    let mut wheel_path: Option<String> = None;
    let mut step_mode = StepMode::New;
    let ghost ps = str_views(parts@);
    let mut i: usize = 1;
    proof {
        assert(string_views(packages@) =~= Seq::<Seq<char>>::empty());
    }
    while i < parts.len()
        invariant
            1 <= i <= parts.len() + 1,
            ps == str_views(parts@),
            parsed_add(ps, num_steps as nat) == add_scan(
                ps,
                num_steps as nat,
                i as int,
                AddSpec {
                    packages: string_views(packages@),
                    wheel_path: crate::text::opt_str_view(wheel_path),
                    index_url: crate::text::opt_str_view(index_url),
                    step_mode,
                },
            ),
        decreases parts.len() + 1 - i,
    {
        let word = chars_of(parts[i]);
        assert(ps[i as int] == parts@[i as int]@);
        match add_word_of(&word) {
            AddWord::Package => {
                let pkg = string_of(&word);
                proof {
                    lemma_string_views_push(packages@, pkg);
                }
                packages.push(pkg);
                i += 1;
            },
            AddWord::UnknownFlag => {
                let mut msg = chars_of("Unknown flag '");
                append(&mut msg, &word);
                append_str(&mut msg, "'. See help add for usage.");
                return Err(string_of(&msg));
            },
            w => {
                if i + 1 >= parts.len() {
                    return Err(string_of(&chars_of(missing_value_text_of(w))));
                }
                let val = parts[i + 1];
                assert(ps[i + 1] == parts@[i + 1]@);
                match w {
                    AddWord::IndexUrl => {
                        index_url = Some(string_of(&chars_of(val)));
                    },
                    AddWord::Wheel => {
                        wheel_path = Some(string_of(&chars_of(val)));
                    },
                    _ => {
                        match parse_step_flag(val, num_steps, flag_name_of(w)) {
                            Err(e) => {
                                return Err(e);
                            },
                            Ok(n) => {
                                step_mode = match w {
                                    AddWord::At => StepMode::At(n),
                                    AddWord::After => StepMode::After(n),
                                    _ => StepMode::Before(n),
                                };
                            },
                        }
                    },
                }
                i += 2;
            },
        }
    }
    if packages.len() == 0 && wheel_path.is_none() {
        return Err(string_of(&chars_of("No packages specified. Usage: add <pkg...>")));
    }
    Ok(ReplCmd::Add(AddArgs { packages, wheel_path, index_url, step_mode }))
}

/// Parses one input line, given as its words, into a command.
///
/// `num_steps` is the number of steps that there are, against which
/// negative step indexes are resolved. An empty line gives an empty
/// error message.
pub fn parse_repl_line(parts: &[&str], num_steps: usize) -> (r: Result<ReplCmd, String>)
    ensures
        cmd_result_view(r) == parsed_line(str_views(parts@), num_steps as nat),
{
    if parts.len() == 0 {
        return Err(String::new());
    }
    let ghost ps = str_views(parts@);
    assert(ps[0] == parts@[0]@);
    let lowered = parts[0].to_lowercase();
    let topic = if parts.len() >= 2 {
        assert(ps[1] == parts@[1]@);
        Some(parts[1].to_lowercase())
    } else {
        None
    };
    command_of(lowered.as_str(), topic, parts, num_steps)
}

/// Decides the command of a line from the lowercase form of its first
/// word. `topic` is what a `help` command asks about; the other commands
/// read their arguments from `parts`.
pub fn command_of(lowered: &str, topic: Option<String>, parts: &[&str], num_steps: usize) -> (r:
    Result<ReplCmd, String>)
    ensures
        cmd_result_view(r) == parsed_command(
            str_views(parts@),
            num_steps as nat,
            lowered@,
            crate::text::opt_str_view(topic),
        ),
{
    let cmd = chars_of(lowered);
    if is_str(&cmd, "help") || is_str(&cmd, "h") || is_str(&cmd, "?") {
        Ok(ReplCmd::Help(topic))
    } else if is_str(&cmd, "list") || is_str(&cmd, "ls") {
        Ok(ReplCmd::List)
    } else if is_str(&cmd, "save") {
        Ok(ReplCmd::Save)
    } else if is_str(&cmd, "quit") || is_str(&cmd, "exit") || is_str(&cmd, "q") {
        Ok(ReplCmd::Quit)
    } else if is_str(&cmd, "drop") || is_str(&cmd, "remove") || is_str(&cmd, "rm") {
        if parts.len() < 2 {
            Err(string_of(&chars_of("Usage: drop <package_name | step_number>")))
        } else {
            assert(str_views(parts@)[1] == parts@[1]@);
            Ok(ReplCmd::Drop(string_of(&chars_of(parts[1]))))
        }
    } else if is_str(&cmd, "add") || is_str(&cmd, "install") {
        parse_add_args(parts, num_steps)
    } else {
        let mut msg = chars_of("Unknown command '");
        append(&mut msg, &cmd);
        append_str(&mut msg, "'. Type help for help.");
        Err(string_of(&msg))
    }
}


/// A package of a template, as characters.
pub struct PkgView {
    pub name: Seq<char>,
    pub version: Seq<char>,
    pub install_type: Seq<char>,
}

/// A step of a template, as characters.
pub struct StepView {
    pub install_args: Option<Seq<char>>,
    pub packages: Seq<PkgView>,
}

impl View for Pkg {
    type V = PkgView;

    open spec fn view(&self) -> PkgView {
        PkgView { name: self.name@, version: self.version@, install_type: self.install_type@ }
    }
}

/// The views of a sequence of packages.
pub open spec fn pkg_views(v: Seq<Pkg>) -> Seq<PkgView> {
    Seq::new(v.len(), |i: int| v[i]@)
}

impl View for Step {
    type V = StepView;

    open spec fn view(&self) -> StepView {
        StepView { install_args: opt_str_view(self.install_args), packages: pkg_views(self.packages@) }
    }
}

/// The views of a sequence of steps.
pub open spec fn step_views(v: Seq<Step>) -> Seq<StepView> {
    Seq::new(v.len(), |i: int| v[i]@)
}

impl Pkg {
    /// A copy of the package.
    pub fn duplicate(&self) -> (r: Pkg)
        ensures
            r@ == self@,
    {
        Pkg {
            name: self.name.clone(),
            version: self.version.clone(),
            install_type: self.install_type.clone(),
        }
    }
}

/// A copy of a list of packages.
pub fn copy_pkgs(ps: &Vec<Pkg>) -> (r: Vec<Pkg>)
    ensures
        pkg_views(r@) == pkg_views(ps@),
{
    let mut r: Vec<Pkg> = Vec::new();
    let mut i: usize = 0;
    while i < ps.len()
        invariant
            i <= ps.len(),
            r.len() == i,
            forall|k: int| 0 <= k < i ==> (#[trigger] r@[k])@ == ps@[k]@,
        decreases ps.len() - i,
    {
        r.push(ps[i].duplicate());
        i += 1;
    }
    assert(pkg_views(r@) =~= pkg_views(ps@));
    r
}

impl Step {
    /// A copy of the step.
    pub fn duplicate(&self) -> (r: Step)
        ensures
            r@ == self@,
    {
        Step {
            install_args: match &self.install_args {
                Some(a) => Some(a.clone()),
                None => None,
            },
            packages: copy_pkgs(&self.packages),
        }
    }
}

/// The largest index of a step, 0 where there is no step.
pub open spec fn last_step(num_steps: nat) -> nat {
    if num_steps == 0 {
        0
    } else {
        (num_steps - 1) as nat
    }
}

/// The place in the list of steps at which an `add` acts, or why there
/// is none: a step to add to or to add after has to be there, and a step
/// to add before may also be the end of the list.
pub open spec fn target_step(mode: StepMode, num_steps: nat) -> Result<usize, Seq<char>> {
    match mode {
        StepMode::At(n) => if n >= num_steps {
            Err(step_not_found_text(n as nat, Some(last_step(num_steps))))
        } else {
            Ok(n)
        },
        StepMode::After(n) => if n >= num_steps {
            Err(step_not_found_text(n as nat, Some(last_step(num_steps))))
        } else {
            Ok((n + 1) as usize)
        },
        StepMode::Before(n) => if n > num_steps {
            Err(step_not_found_text(n as nat, None))
        } else {
            Ok(n)
        },
        StepMode::New => Ok(num_steps as usize),
    }
}

/// What is said of a step that is not there; `max` is the largest index
/// that there is, where that is said too.
pub open spec fn step_not_found_text(n: nat, max: Option<nat>) -> Seq<char> {
    "Step "@ + decimal(n) + (match max {
        Some(m) => " not found (max: "@ + decimal(m) + ")."@,
        None => " not found."@,
    })
}

/// Finds the place in the list of steps at which an `add` acts.
pub fn find_target_step(mode: StepMode, num_steps: usize) -> (r: Result<usize, String>)
    ensures
        index_result_view(r) == target_step(mode, num_steps as nat),
{
    let max = if num_steps == 0 {
        0
    } else {
        num_steps - 1
    };
    match mode {
        StepMode::At(n) => {
            if n >= num_steps {
                Err(step_not_found(n, Some(max)))
            } else {
                Ok(n)
            }
        },
        StepMode::After(n) => {
            if n >= num_steps {
                Err(step_not_found(n, Some(max)))
            } else {
                Ok(n + 1)
            }
        },
        StepMode::Before(n) => {
            if n > num_steps {
                Err(step_not_found(n, None))
            } else {
                Ok(n)
            }
        },
        StepMode::New => Ok(num_steps),
    }
}

fn step_not_found(n: usize, max: Option<usize>) -> (r: String)
    ensures
        r@ == step_not_found_text(
            n as nat,
            match max {
                Some(m) => Some(m as nat),
                None => None,
            },
        ),
{
    let mut msg = chars_of("Step ");
    append(&mut msg, &decimal_of(n as u64));
    match max {
        Some(m) => {
            append_str(&mut msg, " not found (max: ");
            append(&mut msg, &decimal_of(m as u64));
            append_str(&mut msg, ").");
        },
        None => {
            append_str(&mut msg, " not found.");
        },
    }
    assert(msg@ =~= step_not_found_text(
        n as nat,
        match max {
            Some(m) => Some(m as nat),
            None => None,
        },
    ));
    string_of(&msg)
}

/// The index given with `--index-url` or `--index` among the words from
/// `j` on: the word after the first such flag that has one.
pub open spec fn index_in_words(ws: Seq<Seq<char>>, j: int) -> Option<Seq<char>>
    decreases ws.len() - j,
{
    if j < 0 || j >= ws.len() {
        None
    } else if (ws[j] == "--index-url"@ || ws[j] == "--index"@) && j + 1 < ws.len() {
        Some(ws[j + 1])
    } else {
        index_in_words(ws, j + 1)
    }
}

/// The package index that the arguments of a step name.
pub open spec fn step_index_url(install_args: Option<Seq<char>>) -> Option<Seq<char>> {
    match install_args {
        Some(a) => index_in_words(words(a), 0),
        None => None,
    }
}

/// The package index that an `add` uses: the one given, or, for an
/// `add` to a step without one given, the one of the step.
pub open spec fn effective_index_url(
    steps: Seq<StepView>,
    mode: StepMode,
    given: Option<Seq<char>>,
) -> Option<Seq<char>> {
    match mode {
        StepMode::At(n) => if given.is_none() && n < steps.len() {
            step_index_url(steps[n as int].install_args)
        } else {
            given
        },
        _ => given,
    }
}

fn index_in_words_of(ws: &Vec<Vec<char>>) -> (r: Option<String>)
    ensures
        opt_str_view(r) == index_in_words(views(ws@), 0),
{
    let mut j: usize = 0;
    while j < ws.len()
        invariant
            j <= ws.len(),
            index_in_words(views(ws@), 0) == index_in_words(views(ws@), j as int),
        decreases ws.len() - j,
    {
        assert(views(ws@)[j as int] == ws@[j as int]@);
        if (crate::text::same_str(&ws[j], "--index-url") || crate::text::same_str(
            &ws[j],
            "--index",
        )) && j + 1 < ws.len() {
            assert(views(ws@)[j + 1] == ws@[j + 1]@);
            return Some(string_of(&ws[j + 1]));
        }
        j += 1;
    }
    None
}

/// Finds the package index that an `add` uses.
pub fn find_index_url(steps: &Vec<Step>, mode: StepMode, given: &Option<String>) -> (r: Option<
    String,
>)
    ensures
        opt_str_view(r) == effective_index_url(step_views(steps@), mode, opt_str_view(*given)),
{
    let inherit = match mode {
        StepMode::At(n) => if given.is_none() && n < steps.len() {
            Some(n)
        } else {
            None
        },
        _ => None,
    };
    match inherit {
        Some(n) => {
            assert(step_views(steps@)[n as int] == steps@[n as int]@);
            match &steps[n].install_args {
                Some(a) => index_in_words_of(&words_of(&chars_of(a.as_str()))),
                None => None,
            }
        },
        None => match given {
            Some(g) => Some(g.clone()),
            None => None,
        },
    }
}

/// The name under which a requested package is looked up: what stands
/// before the first of `> < = ! ~`.
pub open spec fn base_name(requested: Seq<char>) -> Seq<char> {
    requested.take(first_index(requested, CharClass::Comparator, true))
}

/// The name of the package in a wheel file with the name `file_name`:
/// the name without its extension, up to the first `-`.
pub open spec fn wheel_package(file_name: Option<Seq<char>>) -> Seq<char> {
    match file_name {
        Some(f) => {
            let d = through_last(f, '.');
            let stem = if d <= 1 {
                f
            } else {
                f.take(d - 1)
            };
            stem.take(find_char(stem, '-'))
        },
        None => "unknown"@,
    }
}

/// Finds the name under which a requested package is looked up.
pub fn base_name_of(requested: &str) -> (r: String)
    ensures
        r@ == base_name(requested@),
{
    let v = chars_of(requested);
    let k = first_index_of(&v, CharClass::Comparator, true);
    string_of(&slice(&v, 0, k))
}

/// Finds the name of the package in a wheel file, given the last
/// component of the path of the file.
pub fn wheel_package_name(file_name: Option<&str>) -> (r: String)
    ensures
        r@ == wheel_package(
            match file_name {
                Some(f) => Some(f@),
                None => None,
            },
        ),
{
    match file_name {
        Some(f) => {
            let v = chars_of(f);
            let d = through_last_of(&v, '.');
            let stem = if d <= 1 {
                v
            } else {
                slice(&v, 0, d - 1)
            };
            let k = first_index_of(&stem, CharClass::Only('-'), true);
            string_of(&slice(&stem, 0, k))
        },
        None => string_of(&chars_of("unknown")),
    }
}

/// The version that the installer shows of a package: what follows
/// `Version:` on the first line that starts with it, or `unknown`.
pub open spec fn shown_version(stdout: Seq<char>) -> Seq<char> {
    let ls = lines(stdout);
    let k = first_line_with(ls, "Version:"@, 0);
    if k < ls.len() {
        trim(without_leading(ls[k], "Version:"@))
    } else {
        "unknown"@
    }
}

/// Reads the version of a package from what the installer shows of it.
pub fn read_shown_version(stdout: &str) -> (r: String)
    ensures
        r@ == shown_version(stdout@),
{
    let ls = lines_of(&chars_of(stdout));
    let k = first_line_with_of(&ls, "Version:");
    if k < ls.len() {
        assert(views(ls@)[k as int] == ls@[k as int]@);
        string_of(&trim_of(&without_leading_of(&ls[k], &chars_of("Version:"))))
    } else {
        string_of(&chars_of("unknown"))
    }
}

/// Whether one of the new packages has the name `name`.
pub open spec fn is_new(new_pkgs: Seq<PkgView>, name: Seq<char>, n: int) -> bool
    decreases n,
{
    if n <= 0 {
        false
    } else {
        new_pkgs[n - 1].name == name || is_new(new_pkgs, name, n - 1)
    }
}

/// Those of the first `n` packages that are not among the new ones.
pub open spec fn kept_packages(ps: Seq<PkgView>, new_pkgs: Seq<PkgView>, n: int) -> Seq<PkgView>
    decreases n,
{
    if n <= 0 {
        Seq::empty()
    } else if is_new(new_pkgs, ps[n - 1].name, new_pkgs.len() as int) {
        kept_packages(ps, new_pkgs, n - 1)
    } else {
        kept_packages(ps, new_pkgs, n - 1).push(ps[n - 1])
    }
}

/// The first `n` steps without the new packages, and without the steps
/// that this leaves empty. The step `spare` keeps its packages.
pub open spec fn cleaned_steps(steps: Seq<StepView>, new_pkgs: Seq<PkgView>, spare: int, n: int) -> Seq<
    StepView,
>
    decreases n,
{
    if n <= 0 {
        Seq::empty()
    } else {
        let prev = cleaned_steps(steps, new_pkgs, spare, n - 1);
        let step = if n - 1 == spare {
            steps[n - 1]
        } else {
            StepView {
                packages: kept_packages(
                    steps[n - 1].packages,
                    new_pkgs,
                    steps[n - 1].packages.len() as int,
                ),
                ..steps[n - 1]
            }
        };
        if step.packages.len() > 0 {
            prev.push(step)
        } else {
            prev
        }
    }
}

/// The arguments that are noted with a step that uses the package index
/// `url`.
pub open spec fn noted_args(url: Option<Seq<char>>) -> Option<Seq<char>> {
    match url {
        Some(u) => Some("--index-url "@ + u),
        None => None,
    }
}

/// The steps after the packages `new_pkgs` were added.
///
/// The new packages leave every other step, and a step that this leaves
/// empty goes. An `add` to a step puts them at the end of that step, in
/// the place of packages of the same names; any other `add` makes a new
/// step of them, after or before the step named or at the end.
pub open spec fn steps_after_add(
    steps: Seq<StepView>,
    mode: StepMode,
    url: Option<Seq<char>>,
    new_pkgs: Seq<PkgView>,
) -> Seq<StepView> {
    let spare = match mode {
        StepMode::At(n) => n as int,
        _ => -1,
    };
    let c = cleaned_steps(steps, new_pkgs, spare, steps.len() as int);
    let fresh = StepView { install_args: noted_args(url), packages: new_pkgs };
    match mode {
        StepMode::At(n) => {
            let t = if n < c.len() {
                n as int
            } else {
                c.len() - 1
            };
            if c.len() == 0 {
                c
            } else {
                c.update(
                    t,
                    StepView {
                        packages: kept_packages(c[t].packages, new_pkgs, c[t].packages.len() as int)
                            + new_pkgs,
                        ..c[t]
                    },
                )
            }
        },
        StepMode::After(n) => c.insert(
            if n + 1 < c.len() {
                n + 1
            } else {
                c.len() as int
            },
            fresh,
        ),
        StepMode::Before(n) => c.insert(
            if n < c.len() {
                n as int
            } else {
                c.len() as int
            },
            fresh,
        ),
        StepMode::New => c.push(fresh),
    }
}

fn is_new_of(new_pkgs: &Vec<Pkg>, name: &str) -> (b: bool)
    ensures
        b == is_new(pkg_views(new_pkgs@), name@, new_pkgs.len() as int),
{
    let nv = chars_of(name);
    let mut n: usize = new_pkgs.len();
    while n > 0
        invariant
            n <= new_pkgs.len(),
            nv@ == name@,
            is_new(pkg_views(new_pkgs@), name@, new_pkgs.len() as int) == is_new(
                pkg_views(new_pkgs@),
                name@,
                n as int,
            ),
        decreases n,
    {
        assert(pkg_views(new_pkgs@)[n - 1] == new_pkgs@[n - 1]@);
        if same(&chars_of(new_pkgs[n - 1].name.as_str()), &nv) {
            return true;
        }
        n -= 1;
    }
    false
}

fn kept_packages_of(ps: &Vec<Pkg>, new_pkgs: &Vec<Pkg>) -> (r: Vec<Pkg>)
    ensures
        pkg_views(r@) == kept_packages(pkg_views(ps@), pkg_views(new_pkgs@), ps.len() as int),
{
    let mut r: Vec<Pkg> = Vec::new();
    let ghost pv = pkg_views(ps@);
    let mut i: usize = 0;
    proof {
        assert(pkg_views(r@) =~= kept_packages(pv, pkg_views(new_pkgs@), 0));
    }
    while i < ps.len()
        invariant
            i <= ps.len(),
            pv == pkg_views(ps@),
            pkg_views(r@) == kept_packages(pv, pkg_views(new_pkgs@), i as int),
        decreases ps.len() - i,
    {
        assert(pv[i as int] == ps@[i as int]@);
        if !is_new_of(new_pkgs, ps[i].name.as_str()) {
            let p = ps[i].duplicate();
            assert(pkg_views(r@.push(p)) =~= pkg_views(r@).push(p@));
            r.push(p);
        }
        i += 1;
    }
    r
}

/// Adds the packages `new_pkgs`, which were installed, to the steps.
/// `index_url` is the package index that was used.
///
/// Where the step that `mode` names is not there, nothing is added: the
/// steps stay as they are and the error says which step was not found.
pub fn handle_add(
    steps: &mut Vec<Step>,
    mode: StepMode,
    index_url: &Option<String>,
    new_pkgs: Vec<Pkg>,
) -> (r: Result<(), String>)
    ensures
        match target_step(mode, old(steps)@.len()) {
            Ok(_) => r.is_ok() && step_views(final(steps)@) == steps_after_add(
                step_views(old(steps)@),
                mode,
                opt_str_view(*index_url),
                pkg_views(new_pkgs@),
            ),
            Err(text) => r.is_err() && r.unwrap_err()@ == text && *final(steps) == *old(steps),
        },
{
    match find_target_step(mode, steps.len()) {
        Err(e) => {
            return Err(e);
        },
        Ok(_) => {},
    }
    let ghost before = step_views(steps@);
    let ghost nv = pkg_views(new_pkgs@);
    let ghost spare = match mode {
        StepMode::At(n) => n as int,
        _ => -1,
    };
    let mut c: Vec<Step> = Vec::new();
    let mut i: usize = 0;
    proof {
        assert(step_views(c@) =~= cleaned_steps(before, nv, spare, 0));
    }
    while i < steps.len()
        invariant
            i <= steps.len(),
            before == step_views(steps@),
            nv == pkg_views(new_pkgs@),
            spare == (match mode {
                StepMode::At(n) => n as int,
                _ => -1,
            }),
            step_views(c@) == cleaned_steps(before, nv, spare, i as int),
            c.len() <= i,
        decreases steps.len() - i,
    {
        assert(before[i as int] == steps@[i as int]@);
        let is_spare = match mode {
            StepMode::At(n) => n == i,
            _ => false,
        };
        let step = if is_spare {
            steps[i].duplicate()
        } else {
            Step {
                install_args: match &steps[i].install_args {
                    Some(a) => Some(a.clone()),
                    None => None,
                },
                packages: kept_packages_of(&steps[i].packages, &new_pkgs),
            }
        };
        if step.packages.len() > 0 {
            assert(step_views(c@.push(step)) =~= step_views(c@).push(step@));
            c.push(step);
        }
        i += 1;
    }
    let ghost cv = step_views(c@);
    let noted = match index_url {
        Some(u) => {
            let mut a = chars_of("--index-url ");
            append_str(&mut a, u.as_str());
            Some(string_of(&a))
        },
        None => None,
    };
    match mode {
        StepMode::At(n) => {
            if c.len() > 0 {
                let t = if n < c.len() {
                    n
                } else {
                    c.len() - 1
                };
                assert(cv[t as int] == c@[t as int]@);
                let mut packages = kept_packages_of(&c[t].packages, &new_pkgs);
                let ghost kept = pkg_views(packages@);
                let mut k: usize = 0;
                while k < new_pkgs.len()
                    invariant
                        k <= new_pkgs.len(),
                        nv == pkg_views(new_pkgs@),
                        pkg_views(packages@) == kept + nv.take(k as int),
                    decreases new_pkgs.len() - k,
                {
                    let p = new_pkgs[k].duplicate();
                    assert(nv[k as int] == p@);
                    assert(nv.take(k + 1) =~= nv.take(k as int).push(p@));
                    assert(pkg_views(packages@.push(p)) =~= pkg_views(packages@).push(p@));
                    assert(pkg_views(packages@).push(p@) =~= kept + nv.take(k + 1));
                    packages.push(p);
                    k += 1;
                }
                assert(nv.take(new_pkgs.len() as int) == nv);
                let step = Step {
                    install_args: match &c[t].install_args {
                        Some(a) => Some(a.clone()),
                        None => None,
                    },
                    packages,
                };
                c.set(t, step);
                assert(step_views(c@) =~= cv.update(t as int, step@));
            }
        },
        StepMode::After(n) => {
            let t = if n < c.len() && n + 1 < c.len() {
                n + 1
            } else {
                c.len()
            };
            let fresh = Step { install_args: noted, packages: new_pkgs };
            c.insert(t, fresh);
            assert(step_views(c@) =~= cv.insert(t as int, fresh@));
        },
        StepMode::Before(n) => {
            let t = if n < c.len() {
                n
            } else {
                c.len()
            };
            let fresh = Step { install_args: noted, packages: new_pkgs };
            c.insert(t, fresh);
            assert(step_views(c@) =~= cv.insert(t as int, fresh@));
        },
        StepMode::New => {
            let fresh = Step { install_args: noted, packages: new_pkgs };
            c.push(fresh);
            assert(step_views(c@) =~= cv.push(fresh@));
        },
    }
    *steps = c;
    Ok(())
}

/// What a `drop` removed.
#[derive(Debug, Clone, Copy, PartialEq, Eq, Structural)]
pub enum Dropped {
    /// The step with this index, which had so many packages.
    Step { index: usize, packages: usize },
    /// One package.
    Package,
}

/// The index of the first package from `k` on with the name `name`, or
/// the number of packages.
pub open spec fn pkg_position(ps: Seq<PkgView>, name: Seq<char>, k: int) -> int
    decreases ps.len() - k,
{
    if k < 0 || k >= ps.len() {
        ps.len() as int
    } else if ps[k].name == name {
        k
    } else {
        pkg_position(ps, name, k + 1)
    }
}

/// The index of the first step from `k` on that has a package with the
/// name `name`, or the number of steps.
pub open spec fn step_with(steps: Seq<StepView>, name: Seq<char>, k: int) -> int
    decreases steps.len() - k,
{
    if k < 0 || k >= steps.len() {
        steps.len() as int
    } else if pkg_position(steps[k].packages, name, 0) < steps[k].packages.len() {
        k
    } else {
        step_with(steps, name, k + 1)
    }
}

/// Those of the first `n` steps that have packages.
pub open spec fn filled_steps(steps: Seq<StepView>, n: int) -> Seq<StepView>
    decreases n,
{
    if n <= 0 {
        Seq::empty()
    } else if steps[n - 1].packages.len() > 0 {
        filled_steps(steps, n - 1).push(steps[n - 1])
    } else {
        filled_steps(steps, n - 1)
    }
}

/// The steps after a `drop` of `target`, and what was dropped or why
/// nothing was.
///
/// A number drops the step with that index. Any other target drops the
/// first package of that name; steps without packages go then, whether
/// or not a package was found.
pub open spec fn steps_after_drop(steps: Seq<StepView>, target: Seq<char>) -> (
    Seq<StepView>,
    Result<Dropped, Seq<char>>,
) {
    match parse_unsigned(target, usize::MAX as nat) {
        Some(index) => if index < steps.len() {
            (
                steps.remove(index as int),
                Ok(
                    Dropped::Step {
                        index: index as usize,
                        packages: steps[index as int].packages.len() as usize,
                    },
                ),
            )
        } else {
            (steps, Err(step_not_found_text(index, None)))
        },
        None => {
            let s = step_with(steps, target, 0);
            if s < steps.len() {
                let without = steps.update(
                    s,
                    StepView {
                        packages: steps[s].packages.remove(
                            pkg_position(steps[s].packages, target, 0),
                        ),
                        ..steps[s]
                    },
                );
                (filled_steps(without, without.len() as int), Ok(Dropped::Package))
            } else {
                (filled_steps(steps, steps.len() as int), Err("'"@ + target + "' not found."@))
            }
        },
    }
}

/// The views of the two sides of a result.
pub open spec fn drop_result_view(r: Result<Dropped, String>) -> Result<Dropped, Seq<char>> {
    match r {
        Ok(d) => Ok(d),
        Err(e) => Err(e@),
    }
}

fn pkg_position_of(ps: &Vec<Pkg>, name: &Vec<char>) -> (k: usize)
    ensures
        k == pkg_position(pkg_views(ps@), name@, 0),
        k <= ps.len(),
{
    let mut k: usize = 0;
    while k < ps.len()
        invariant
            k <= ps.len(),
            pkg_position(pkg_views(ps@), name@, 0) == pkg_position(
                pkg_views(ps@),
                name@,
                k as int,
            ),
        decreases ps.len() - k,
    {
        assert(pkg_views(ps@)[k as int] == ps@[k as int]@);
        if same(&chars_of(ps[k].name.as_str()), name) {
            return k;
        }
        k += 1;
    }
    k
}

fn step_with_of(steps: &Vec<Step>, name: &Vec<char>) -> (s: usize)
    ensures
        s == step_with(step_views(steps@), name@, 0),
        s <= steps.len(),
        s < steps.len() ==> pkg_position(step_views(steps@)[s as int].packages, name@, 0)
            < steps@[s as int].packages.len(),
{
    let ghost sv = step_views(steps@);
    let mut s: usize = 0;
    while s < steps.len()
        invariant
            s <= steps.len(),
            sv == step_views(steps@),
            step_with(sv, name@, 0) == step_with(sv, name@, s as int),
        decreases steps.len() - s,
    {
        assert(sv[s as int] == steps@[s as int]@);
        if pkg_position_of(&steps[s].packages, name) < steps[s].packages.len() {
            return s;
        }
        s += 1;
    }
    s
}

fn filled_steps_of(steps: &Vec<Step>) -> (r: Vec<Step>)
    ensures
        step_views(r@) == filled_steps(step_views(steps@), steps.len() as int),
{
    let mut r: Vec<Step> = Vec::new();
    let ghost sv = step_views(steps@);
    let mut i: usize = 0;
    proof {
        assert(step_views(r@) =~= filled_steps(sv, 0));
    }
    while i < steps.len()
        invariant
            i <= steps.len(),
            sv == step_views(steps@),
            step_views(r@) == filled_steps(sv, i as int),
        decreases steps.len() - i,
    {
        assert(sv[i as int] == steps@[i as int]@);
        if steps[i].packages.len() > 0 {
            let s = steps[i].duplicate();
            assert(step_views(r@.push(s)) =~= step_views(r@).push(s@));
            r.push(s);
        }
        i += 1;
    }
    r
}

/// Drops a step, given by its index, or a package, given by its name,
/// from the steps.
pub fn handle_drop(steps: &mut Vec<Step>, target: &str) -> (r: Result<Dropped, String>)
    ensures
        (step_views(final(steps)@), drop_result_view(r)) == steps_after_drop(
            step_views(old(steps)@),
            target@,
        ),
{
    let ghost before = step_views(steps@);
    let t = chars_of(target);
    match parse_unsigned_of(&t, usize::MAX as u64) {
        Some(index) => {
            if index < steps.len() as u64 {
                let i = index as usize;
                assert(before[i as int] == steps@[i as int]@);
                let removed = steps.remove(i);
                assert(step_views(steps@) =~= before.remove(i as int));
                Ok(Dropped::Step { index: i, packages: removed.packages.len() })
            } else {
                Err(step_not_found(index as usize, None))
            }
        },
        None => {
            let s = step_with_of(steps, &t);
            if s < steps.len() {
                assert(before[s as int] == steps@[s as int]@);
                let pos = pkg_position_of(&steps[s].packages, &t);
                let mut packages = copy_pkgs(&steps[s].packages);
                packages.remove(pos);
                assert(pkg_views(packages@) =~= before[s as int].packages.remove(pos as int));
                let step = Step {
                    install_args: match &steps[s].install_args {
                        Some(a) => Some(a.clone()),
                        None => None,
                    },
                    packages,
                };
                steps.set(s, step);
                assert(step_views(steps@) =~= before.update(s as int, step@));
                let filled = filled_steps_of(steps);
                *steps = filled;
                Ok(Dropped::Package)
            } else {
                let filled = filled_steps_of(steps);
                *steps = filled;
                let mut msg = chars_of("'");
                append(&mut msg, &t);
                append_str(&mut msg, "' not found.");
                Err(string_of(&msg))
            }
        },
    }
}

/// The step of the row before row `n`, and -1 before the first row.
pub open spec fn step_before(rows: Seq<TemplatePackageView>, n: int) -> int {
    if n <= 0 {
        -1
    } else {
        rows[n - 1].step as int
    }
}

/// The package of a row of a stored template.
pub open spec fn row_package(row: TemplatePackageView) -> PkgView {
    PkgView { name: row.package_name, version: row.version, install_type: row.install_type }
}

/// The steps that the first `n` rows of a stored template stand for: a
/// row whose step differs from the one of the row before it starts a
/// new step, with its arguments; every other row adds its package to
/// the last step.
pub open spec fn grouped(rows: Seq<TemplatePackageView>, n: int) -> Seq<StepView>
    decreases n,
{
    if n <= 0 {
        Seq::empty()
    } else {
        let prev = grouped(rows, n - 1);
        let row = rows[n - 1];
        if row.step as int != step_before(rows, n - 1) {
            prev.push(StepView { install_args: row.install_args, packages: seq![row_package(row)] })
        } else if prev.len() > 0 {
            prev.update(
                prev.len() - 1,
                StepView { packages: prev.last().packages.push(row_package(row)), ..prev.last() },
            )
        } else {
            prev
        }
    }
}

/// Makes the steps of a template from its stored packages, given in the
/// order of their steps.
pub fn load_steps_from_db(rows: &Vec<TemplatePackage>) -> (r: Vec<Step>)
    ensures
        step_views(r@) == grouped(template_package_views(rows@), rows.len() as int),
{
    let mut steps: Vec<Step> = Vec::new();
    let ghost rv = template_package_views(rows@);
    let mut current: i128 = -1;
    let mut i: usize = 0;
    proof {
        assert(step_views(steps@) =~= grouped(rv, 0));
    }
    while i < rows.len()
        invariant
            i <= rows.len(),
            rv == template_package_views(rows@),
            current == step_before(rv, i as int),
            step_views(steps@) == grouped(rv, i as int),
        decreases rows.len() - i,
    {
        assert(rv[i as int] == rows@[i as int]@);
        let row = &rows[i];
        let pkg = Pkg {
            name: row.package_name.clone(),
            version: row.version.clone(),
            install_type: row.install_type.clone(),
        };
        let ghost prev = step_views(steps@);
        if row.step as i128 != current {
            current = row.step as i128;
            let mut packages: Vec<Pkg> = Vec::new();
            packages.push(pkg);
            assert(pkg_views(packages@) =~= seq![row_package(rv[i as int])]);
            let step = Step {
                install_args: match &row.install_args {
                    Some(a) => Some(a.clone()),
                    None => None,
                },
                packages,
            };
            assert(step_views(steps@.push(step)) =~= prev.push(step@));
            steps.push(step);
        } else if steps.len() > 0 {
            let last = steps.len() - 1;
            assert(prev[last as int] == steps@[last as int]@);
            let mut packages = copy_pkgs(&steps[last].packages);
            assert(pkg_views(packages@.push(pkg)) =~= pkg_views(packages@).push(pkg@));
            packages.push(pkg);
            let step = Step {
                install_args: match &steps[last].install_args {
                    Some(a) => Some(a.clone()),
                    None => None,
                },
                packages,
            };
            steps.set(last, step);
            assert(step_views(steps@) =~= prev.update(last as int, step@));
        }
        i += 1;
    }
    steps
}

} // verus!
