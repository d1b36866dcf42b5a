//! Parsers for the files of an installed distribution: `METADATA`,
//! `direct_url.json`, a requirement line, PyTorch's `version.py` and
//! `pyvenv.cfg`.

use crate::text::{
    chars_of, copy, find_char, find_sub, find_sub_of, first_index, first_index_of,
    first_line_with, first_line_with_of, has_prefix, has_prefix_str, lemma_find_sub, lines,
    lines_of, lowercase, lowercase_of, opt_str_view, opt_string_of, opt_view, replace_char,
    replace_char_of, same_str, slice, split, split_of, starts_with, string_of, strip,
    strip_end, strip_end_of, strip_of, strip_start, strip_start_of, trim, trim_of, views,
    CharClass,
};
use crate::validation::{python_version_fault, validate_python_version};
use vstd::prelude::*;

verus! {

/// The normal form of a package name: lowercase, with `_` for every `-`.
pub open spec fn normalized(name: Seq<char>) -> Seq<char> {
    replace_char(lowercase(name), '-', '_')
}

/// Replaces every `-` of an already lowercased name by `_`.
pub fn replace_hyphens(lowered: &str) -> (r: String)
    ensures
        r@ == replace_char(lowered@, '-', '_'),
        r@.len() == lowered@.len(),
        forall|i: int| 0 <= i < r@.len() ==> r@[i] != '-',
{
    string_of(&replace_char_of(&chars_of(lowered), '-', '_'))
}

/// Exec counterpart of `normalized`, on characters.
pub fn normalized_of(name: &Vec<char>) -> (r: Vec<char>)
    ensures
        r@ == normalized(name@),
{
    replace_char_of(&lowercase_of(name), '-', '_')
}

/// Normalizes a package name: lowercase, hyphens to underscores, so that
/// `Tag-Detector` and `tag_detector` name the same package.
pub fn normalize_package_name(name: &str) -> (r: String)
    ensures
        r@ == normalized(name@),
{
    let lowered = name.to_lowercase();
    replace_hyphens(lowered.as_str())
}

/// The header fields found so far when the scan of a `METADATA` file
/// stands at line `i`, and what the rest of the header adds to them.
///
/// The header ends at the first blank line. A line `Name: x` sets the
/// name, a line `Version: x` the version; the scan stops as soon as both
/// are known.
pub open spec fn header_scan(
    ls: Seq<Seq<char>>,
    i: int,
    name: Option<Seq<char>>,
    version: Option<Seq<char>>,
) -> (Option<Seq<char>>, Option<Seq<char>>)
    decreases ls.len() - i,
{
    if i < 0 || i >= ls.len() || trim(ls[i]).len() == 0 {
        (name, version)
    } else {
        let n = if starts_with(ls[i], "Name: "@) {
            Some(ls[i].skip("Name: "@.len() as int))
        } else {
            name
        };
        let v = if !starts_with(ls[i], "Name: "@) && starts_with(ls[i], "Version: "@) {
            Some(ls[i].skip("Version: "@.len() as int))
        } else {
            version
        };
        if n.is_some() && v.is_some() {
            (n, v)
        } else {
            header_scan(ls, i + 1, n, v)
        }
    }
}

/// The name and the version that the header of a `METADATA` file gives.
pub open spec fn metadata_fields(content: Seq<char>) -> (Option<Seq<char>>, Option<Seq<char>>) {
    header_scan(lines(content), 0, None, None)
}

/// Exec counterpart of `metadata_fields`, on characters.
pub fn metadata_fields_of(content: &Vec<char>) -> (r: (Option<Vec<char>>, Option<Vec<char>>))
    ensures
        (opt_view(r.0), opt_view(r.1)) == metadata_fields(content@),
{
    let ls = lines_of(content);
    let name_key = chars_of("Name: ");
    let version_key = chars_of("Version: ");
    let mut name: Option<Vec<char>> = None;
    let mut version: Option<Vec<char>> = None;
    let mut i: usize = 0;
    while i < ls.len()
        invariant
            i <= ls.len(),
            views(ls@) == lines(content@),
            name_key@ == "Name: "@,
            version_key@ == "Version: "@,
            !(name.is_some() && version.is_some()),
            metadata_fields(content@) == header_scan(
                views(ls@),
                i as int,
                opt_view(name),
                opt_view(version),
            ),
        decreases ls.len() - i,
    {
        let line = &ls[i];
        assert(views(ls@)[i as int] == line@);
        if trim_of(line).len() == 0 {
            return (name, version);
        }
        if has_prefix(line, &name_key) {
            name = Some(slice(line, name_key.len(), line.len()));
        } else if has_prefix(line, &version_key) {
            version = Some(slice(line, version_key.len(), line.len()));
        }
        if name.is_some() && version.is_some() {
            return (name, version);
        }
        i += 1;
    }
    (name, version)
}

/// Reads the name and the version from the text of a `METADATA` file.
///
/// Only the header is read: the lines up to the first blank line.
pub fn parse_metadata(content: &str) -> (r: (Option<String>, Option<String>))
    ensures
        (opt_str_view(r.0), opt_str_view(r.1)) == metadata_fields(content@),
{
    let (n, v) = metadata_fields_of(&chars_of(content));
    (opt_string_of(&n), opt_string_of(&v))
}

/// The pattern that stands before the value of `key` in JSON text.
pub open spec fn json_key_pattern(key: Seq<char>) -> Seq<char> {
    "\""@ + key + "\":"@
}

/// The string value that follows the first occurrence of `"key":` in
/// `content`: the text between the next two double quotes.
pub open spec fn json_string(content: Seq<char>, key: Seq<char>) -> Option<Seq<char>> {
    let pat = json_key_pattern(key);
    let i = find_sub(content, pat);
    let rest = content.skip(i + pat.len());
    let q = find_char(rest, '"');
    let value = rest.skip(q + 1);
    let e = find_char(value, '"');
    if 0 <= i <= content.len() - pat.len() && q < rest.len() && e < value.len() {
        Some(value.take(e))
    } else {
        None
    }
}

/// Exec counterpart of `json_string`, on characters.
pub fn json_string_of(content: &Vec<char>, key: &Vec<char>) -> (r: Option<Vec<char>>)
    ensures
        opt_view(r) == json_string(content@, key@),
{
    let mut pat = chars_of("\"");
    crate::text::append(&mut pat, key);
    crate::text::append_str(&mut pat, "\":");
    let i = match find_sub_of(content, &pat) {
        Some(i) => i,
        None => {
            proof {
                lemma_find_sub(content@, pat@);
            }
            return None;
        },
    };
    proof {
        lemma_find_sub(content@, pat@);
    }
    let rest = slice(content, i + pat.len(), content.len());
    let q = first_index_of(&rest, CharClass::Only('"'), true);
    if q >= rest.len() {
        return None;
    }
    let value = slice(&rest, q + 1, rest.len());
    let e = first_index_of(&value, CharClass::Only('"'), true);
    if e >= value.len() {
        return None;
    }
    Some(slice(&value, 0, e))
}

/// Extracts a string value from JSON text by key, without parsing the
/// JSON: the text between the first two double quotes after `"key":`.
pub fn extract_json_string(content: &str, key: &str) -> (r: Option<String>)
    ensures
        opt_str_view(r) == json_string(content@, key@),
{
    opt_string_of(&json_string_of(&chars_of(content), &chars_of(key)))
}

/// Where a distribution was installed from.
#[derive(Clone, Copy, Debug, PartialEq, Eq, Structural)]
pub enum InstallSource {
    Pypi,
    Git,
    Local,
}

impl InstallSource {
    /// The name of the source: `pypi`, `git` or `local`.
    pub open spec fn name(self) -> Seq<char> {
        match self {
            InstallSource::Pypi => "pypi"@,
            InstallSource::Git => "git"@,
            InstallSource::Local => "local"@,
        }
    }

    /// The name of the source: `pypi`, `git` or `local`.
    pub fn as_str(&self) -> (s: &'static str)
        ensures
            s@ == self.name(),
    {
        match self {
            InstallSource::Pypi => "pypi",
            InstallSource::Git => "git",
            InstallSource::Local => "local",
        }
    }
}

/// Whether the text of a `direct_url.json` says that the distribution
/// comes from git.
pub open spec fn says_git(content: Seq<char>) -> bool {
    crate::text::contains_sub(content, "\"vcs\": \"git\""@) || crate::text::contains_sub(
        content,
        "\"vcs\":\"git\""@,
    )
}

/// Whether the text of a `direct_url.json` says that the install is
/// editable.
pub open spec fn says_editable(content: Seq<char>) -> bool {
    crate::text::contains_sub(content, "\"editable\": true"@) || crate::text::contains_sub(
        content,
        "\"editable\":true"@,
    )
}

/// The install source that a `direct_url.json` stands for: git when it
/// says so, local when its URL starts with `file://`, the index else.
pub open spec fn direct_url_source(content: Seq<char>) -> InstallSource {
    if says_git(content) {
        InstallSource::Git
    } else if json_string(content, "url"@) matches Some(u) && starts_with(u, "file://"@) {
        InstallSource::Local
    } else {
        InstallSource::Pypi
    }
}

/// What a `direct_url.json` says of an install.
pub struct DirectUrl {
    pub source: InstallSource,
    pub editable: bool,
    pub url: Option<Vec<char>>,
    pub commit_id: Option<Vec<char>>,
}

/// Reads a `direct_url.json`, given as characters.
pub fn direct_url_of(content: &Vec<char>) -> (r: DirectUrl)
    ensures
        r.source == direct_url_source(content@),
        r.editable == says_editable(content@),
        opt_view(r.url) == json_string(content@, "url"@),
        opt_view(r.commit_id) == json_string(content@, "commit_id"@),
{
    let editable = crate::text::contains_str(content, "\"editable\": true")
        || crate::text::contains_str(content, "\"editable\":true");
    let git = crate::text::contains_str(content, "\"vcs\": \"git\"") || crate::text::contains_str(
        content,
        "\"vcs\":\"git\"",
    );
    let url = json_string_of(content, &chars_of("url"));
    let commit_id = json_string_of(content, &chars_of("commit_id"));
    let local = match &url {
        Some(u) => has_prefix_str(u, "file://"),
        None => false,
    };
    let source = if git {
        InstallSource::Git
    } else if local {
        InstallSource::Local
    } else {
        InstallSource::Pypi
    };
    DirectUrl { source, editable, url, commit_id }
}

/// Reads the text of a `direct_url.json`: the install source (`git`,
/// `local` or `pypi`), whether the install is editable, the URL and the
/// commit id.
pub fn parse_direct_url(content: &str) -> (r: (Option<String>, bool, Option<String>, Option<String>))
    ensures
        opt_str_view(r.0) == Some(direct_url_source(content@).name()),
        r.1 == says_editable(content@),
        opt_str_view(r.2) == json_string(content@, "url"@),
        opt_str_view(r.3) == json_string(content@, "commit_id"@),
{
    let d = direct_url_of(&chars_of(content));
    (
        Some(string_of(&chars_of(d.source.as_str()))),
        d.editable,
        opt_string_of(&d.url),
        opt_string_of(&d.commit_id),
    )
}

/// The package name in the part of a requirement that stands before the
/// specifier: without extras in square brackets and white space.
pub open spec fn requirement_name(s: Seq<char>) -> Seq<char> {
    trim(trim(s).take(find_char(trim(s), '[')))
}

/// The name and the specifier of a requirement without marker.
///
/// Three forms are read: `name (>=1.0,<2.0)`, where the specifier stands
/// in parentheses; `name>=1.0,<2.0`, where it starts at the first of
/// `> < = ! ~`; and `name`, where it is empty.
pub open spec fn requirement_parts(req: Seq<char>) -> (Seq<char>, Seq<char>) {
    let r = trim(req);
    let p = find_char(r, '(');
    let q = first_index(r, CharClass::Comparator, true);
    if p < r.len() {
        (
            requirement_name(r.take(p)),
            trim(strip_end(strip_start(r.skip(p), CharClass::Only('(')), CharClass::Only(')'))),
        )
    } else if q < r.len() {
        (requirement_name(r.take(q)), trim(r.skip(q)))
    } else {
        (requirement_name(r), Seq::empty())
    }
}

fn requirement_name_of(s: &Vec<char>) -> (r: Vec<char>)
    ensures
        r@ == requirement_name(s@),
{
    let t = trim_of(s);
    let k = first_index_of(&t, CharClass::Only('['), true);
    trim_of(&slice(&t, 0, k))
}

/// Exec counterpart of `requirement_parts`, on characters.
pub fn requirement_parts_of(req: &Vec<char>) -> (r: (Vec<char>, Vec<char>))
    ensures
        (r.0@, r.1@) == requirement_parts(req@),
{
    let t = trim_of(req);
    let p = first_index_of(&t, CharClass::Only('('), true);
    if p < t.len() {
        let name = requirement_name_of(&slice(&t, 0, p));
        let rest = slice(&t, p, t.len());
        let rest = strip_start_of(&rest, CharClass::Only('('));
        let rest = strip_end_of(&rest, CharClass::Only(')'));
        return (name, trim_of(&rest));
    }
    let q = first_index_of(&t, CharClass::Comparator, true);
    if q < t.len() {
        let name = requirement_name_of(&slice(&t, 0, q));
        return (name, trim_of(&slice(&t, q, t.len())));
    }
    (requirement_name_of(&t), Vec::new())
}

/// Splits a requirement without marker into the package name and the
/// version specifier. Extras in square brackets are dropped from the
/// name.
pub fn parse_requirement_name_and_spec(req: &str) -> (r: (String, String))
    ensures
        (r.0@, r.1@) == requirement_parts(req@),
{
    let (n, s) = requirement_parts_of(&chars_of(req));
    (string_of(&n), string_of(&s))
}

/// A value of `version.py` without white space and quotes around it.
pub open spec fn unquoted(v: Seq<char>) -> Seq<char> {
    strip(strip(trim(v), CharClass::Only('\'')), CharClass::Only('"'))
}

/// The text between the first and the second `=` of a line, if the line
/// has a `=`.
pub open spec fn assigned(line: Seq<char>) -> Option<Seq<char>> {
    if split(line, '=').len() >= 2 {
        Some(split(line, '=')[1])
    } else {
        None
    }
}

/// The version that PyTorch's `version.py` gives: the value of the first
/// line that starts with `__version__`.
pub open spec fn torch_version(content: Seq<char>) -> Option<Seq<char>> {
    let ls = lines(content);
    let k = first_line_with(ls, "__version__"@, 0);
    if k < ls.len() && assigned(ls[k]).is_some() {
        Some(unquoted(assigned(ls[k]).unwrap()))
    } else {
        None
    }
}

/// The CUDA version that PyTorch's `version.py` gives: the value of the
/// first line that starts with `cuda`, unless it is `None`.
pub open spec fn torch_cuda(content: Seq<char>) -> Option<Seq<char>> {
    let ls = lines(content);
    let k = first_line_with(ls, "cuda"@, 0);
    if k < ls.len() && assigned(ls[k]).is_some() && trim(assigned(ls[k]).unwrap()) != "None"@ {
        Some(strip(strip(trim(assigned(ls[k]).unwrap()), CharClass::Only('\'')), CharClass::Only('"')))
    } else {
        None
    }
}

fn assigned_of(line: &Vec<char>) -> (r: Option<Vec<char>>)
    ensures
        opt_view(r) == assigned(line@),
{
    let parts = split_of(line, '=');
    if parts.len() >= 2 {
        assert(views(parts@)[1] == parts@[1]@);
        Some(copy(&parts[1]))
    } else {
        None
    }
}

fn unquoted_of(v: &Vec<char>) -> (r: Vec<char>)
    ensures
        r@ == unquoted(v@),
{
    let t = trim_of(v);
    let t = strip_of(&t, CharClass::Only('\''));
    strip_of(&t, CharClass::Only('"'))
}

/// Reads the text of PyTorch's `version.py`: the version, with its exact
/// `+cuNNN` suffix, and the CUDA version. `None` when the file gives no
/// version.
pub fn read_torch_version(content: &str) -> (r: Option<(String, Option<String>)>)
    ensures
        match r {
            Some((v, cuda)) => torch_version(content@) == Some(v@) && opt_str_view(cuda)
                == torch_cuda(content@),
            None => torch_version(content@).is_none(),
        },
{
    let ls = lines_of(&chars_of(content));
    let k = first_line_with_of(&ls, "__version__");
    if k >= ls.len() {
        return None;
    }
    assert(views(ls@)[k as int] == ls@[k as int]@);
    let version = match assigned_of(&ls[k]) {
        Some(v) => unquoted_of(&v),
        None => {
            return None;
        },
    };
    let c = first_line_with_of(&ls, "cuda");
    let mut cuda: Option<String> = None;
    if c < ls.len() {
        assert(views(ls@)[c as int] == ls@[c as int]@);
        if let Some(v) = assigned_of(&ls[c]) {
            let t = trim_of(&v);
            if !same_str(&t, "None") {
                let t = strip_of(&t, CharClass::Only('\''));
                let t = strip_of(&t, CharClass::Only('"'));
                cuda = Some(string_of(&t));
            }
        }
    }
    Some((string_of(&version), cuda))
}

/// The index of the first line from `i` on that, trimmed, starts with
/// `version`, or `ls.len()`.
pub open spec fn version_line(ls: Seq<Seq<char>>, i: int) -> int
    decreases ls.len() - i,
{
    if i < 0 || i >= ls.len() {
        ls.len() as int
    } else if starts_with(trim(ls[i]), "version"@) {
        i
    } else {
        version_line(ls, i + 1)
    }
}

/// The Python version that a `pyvenv.cfg` gives: what stands after the
/// first `=` of its first `version` line, trimmed.
pub open spec fn pyvenv_version(content: Seq<char>) -> Option<Seq<char>> {
    let ls = lines(content);
    let k = version_line(ls, 0);
    if k < ls.len() && find_char(ls[k], '=') < ls[k].len() {
        Some(trim(ls[k].skip(find_char(ls[k], '=') + 1)))
    } else {
        None
    }
}

/// Reads the Python version from the text of a `pyvenv.cfg`.
pub fn read_python_version(content: &str) -> (r: Option<String>)
    ensures
        opt_str_view(r) == pyvenv_version(content@),
{
    let ls = lines_of(&chars_of(content));
    let mut i: usize = 0;
    while i < ls.len()
        invariant
            i <= ls.len(),
            views(ls@) == lines(content@),
            version_line(views(ls@), 0) == version_line(views(ls@), i as int),
        decreases ls.len() - i,
    {
        let line = &ls[i];
        assert(views(ls@)[i as int] == line@);
        if has_prefix_str(&trim_of(line), "version") {
            let e = first_index_of(line, CharClass::Only('='), true);
            if e < line.len() {
                let v = trim_of(&slice(line, e + 1, line.len()));
                return Some(string_of(&v));
            }
            return None;
        }
        i += 1;
    }
    None
}

/// The Python version that the name of the directory above
/// `site-packages` stands for: what follows `python` where that is a
/// Python version, one to three numbers with dots between them, and
/// `3.12` for any other name.
pub open spec fn python_of_dir(dir_name: Seq<char>) -> Seq<char> {
    if starts_with(dir_name, "python"@) && python_version_fault(
        dir_name.skip("python"@.len() as int),
    ).is_none() {
        dir_name.skip("python"@.len() as int)
    } else {
        "3.12"@
    }
}

/// Detects the Python version of an environment from the name of the
/// directory that holds its `site-packages`, such as `python3.12`.
pub fn python_version_of_dir(dir_name: &str) -> (r: String)
    ensures
        r@ == python_of_dir(dir_name@),
{
    let d = chars_of(dir_name);
    let key = chars_of("python");
    if has_prefix(&d, &key) {
        let rest = string_of(&slice(&d, key.len(), d.len()));
        if validate_python_version(rest.as_str()).is_ok() {
            return rest;
        }
    }
    string_of(&chars_of("3.12"))
}

} // verus!
