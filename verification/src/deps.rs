//! The dependency checker: every `Requires-Dist` line of every installed
//! distribution is held against what is installed.
//!
//! The checker works on the texts of the `METADATA` files of an
//! environment, in the order in which the scan found them. It never
//! fails; a text that gives no name or no version takes no part.

use crate::marker::{excludes, excludes_of};
use crate::metadata::{
    metadata_fields, metadata_fields_of, normalized, normalized_of, requirement_parts,
    requirement_parts_of,
};
use crate::text::{
    append, append_str, chars_of, contains_str, contains_sub, copy, decimal, decimal_of,
    find_char, first_index_of, has_prefix, lines, lines_of, same, slice, starts_with, string_of,
    string_views, trim, trim_of, views, CharClass,
};
use crate::types::{Diagnostic, HealthLevel};
use crate::version::{satisfies, satisfies_chars};
use vstd::prelude::*;

verus! {

/// A dependency problem found in an environment.
#[derive(Debug, Clone)]
pub enum DepIssue {
    /// A required package is not installed.
    Missing { package: String, requires: String },
    /// The installed version does not satisfy the requirement.
    Incompatible { package: String, requires: String, installed_version: String },
    /// Several `.dist-info` directories stand for one package.
    Duplicate { package: String, count: usize },
}

/// A dependency problem, as characters.
pub enum IssueView {
    Missing { package: Seq<char>, requires: Seq<char> },
    Incompatible { package: Seq<char>, requires: Seq<char>, installed_version: Seq<char> },
    Duplicate { package: Seq<char>, count: usize },
}

impl View for DepIssue {
    type V = IssueView;

    open spec fn view(&self) -> IssueView {
        match self {
            DepIssue::Missing { package, requires: wanted } => IssueView::Missing {
                package: package@,
                requires: wanted@,
            },
            DepIssue::Incompatible { package, requires: wanted, installed_version } => {
                IssueView::Incompatible {
                    package: package@,
                    requires: wanted@,
                    installed_version: installed_version@,
                }
            },
            DepIssue::Duplicate { package, count } => IssueView::Duplicate {
                package: package@,
                count: *count,
            },
        }
    }
}

impl IssueView {
    /// The message of the problem.
    pub open spec fn text(self) -> Seq<char> {
        match self {
            IssueView::Missing { package, requires: wanted } => package + " requires "@ + wanted
                + ", which is not installed"@,
            IssueView::Incompatible { package, requires: wanted, installed_version } => package
                + " requires "@ + wanted + ", but "@ + installed_version + " is installed"@,
            IssueView::Duplicate { package, count } => package + " has "@ + decimal(count as nat)
                + " duplicate .dist-info entries"@,
        }
    }

    /// The severity of the problem: a missing package is worth a note,
    /// an incompatible or duplicate one a warning.
    pub open spec fn severity(self) -> HealthLevel {
        match self {
            IssueView::Missing { .. } => HealthLevel::Info,
            _ => HealthLevel::Warn,
        }
    }

    /// Whether the problem is a missing package.
    pub open spec fn is_missing(self) -> bool {
        self is Missing
    }
}

impl Diagnostic for DepIssue {
    open spec fn message_text(&self) -> Seq<char> {
        self@.text()
    }

    open spec fn severity_level(&self) -> HealthLevel {
        self@.severity()
    }

    fn message(&self) -> (s: String) {
        let mut out: Vec<char> = Vec::new();
        match self {
            DepIssue::Missing { package, requires: wanted } => {
                append_str(&mut out, package.as_str());
                append_str(&mut out, " requires ");
                append_str(&mut out, wanted.as_str());
                append_str(&mut out, ", which is not installed");
            },
            DepIssue::Incompatible { package, requires: wanted, installed_version } => {
                append_str(&mut out, package.as_str());
                append_str(&mut out, " requires ");
                append_str(&mut out, wanted.as_str());
                append_str(&mut out, ", but ");
                append_str(&mut out, installed_version.as_str());
                append_str(&mut out, " is installed");
            },
            DepIssue::Duplicate { package, count } => {
                append_str(&mut out, package.as_str());
                append_str(&mut out, " has ");
                append(&mut out, &decimal_of(*count as u64));
                append_str(&mut out, " duplicate .dist-info entries");
            },
        }
        assert(out@ =~= self.message_text());
        string_of(&out)
    }

    fn level(&self) -> (l: HealthLevel) {
        match self {
            DepIssue::Missing { .. } => HealthLevel::Info,
            DepIssue::Incompatible { .. } | DepIssue::Duplicate { .. } => HealthLevel::Warn,
        }
    }
}

/// The views of a sequence of problems.
pub open spec fn issue_views(v: Seq<DepIssue>) -> Seq<IssueView> {
    Seq::new(v.len(), |i: int| v[i]@)
}

/// The views of problems with one more problem are the views with one
/// more view.
pub proof fn lemma_issue_views_push(v: Seq<DepIssue>, x: DepIssue)
    ensures
        issue_views(v.push(x)) == issue_views(v).push(x@),
{
    assert(issue_views(v.push(x)) =~= issue_views(v).push(x@));
}

/// The normalized name under which the distribution with the metadata
/// text `meta` is installed, if the text gives a name, which is not
/// empty, and a version.
pub open spec fn indexed_name(meta: Seq<char>) -> Option<Seq<char>> {
    match metadata_fields(meta) {
        (Some(name), Some(_)) => if normalized(name).len() > 0 {
            Some(normalized(name))
        } else {
            None
        },
        _ => None,
    }
}

/// The version that the metadata text `meta` gives.
pub open spec fn indexed_version(meta: Seq<char>) -> Seq<char> {
    match metadata_fields(meta).1 {
        Some(v) => v,
        None => Seq::empty(),
    }
}

/// The installed version of the package `name` among the first `n`
/// metadata texts: that of the last text for that name.
pub open spec fn installed_version(metas: Seq<Seq<char>>, n: int, name: Seq<char>) -> Option<
    Seq<char>,
>
    decreases n,
{
    if n <= 0 {
        None
    } else if indexed_name(metas[n - 1]) == Some(name) {
        Some(indexed_version(metas[n - 1]))
    } else {
        installed_version(metas, n - 1, name)
    }
}

/// How many of the first `n` metadata texts stand for the package
/// `name`.
pub open spec fn occurrences(metas: Seq<Seq<char>>, n: int, name: Seq<char>) -> nat
    decreases n,
{
    if n <= 0 {
        0
    } else if indexed_name(metas[n - 1]) == Some(name) {
        occurrences(metas, n - 1, name) + 1
    } else {
        occurrences(metas, n - 1, name)
    }
}

/// The names of the packages that the first `n` metadata texts stand
/// for, each once, in the order in which they first occur.
pub open spec fn distinct_names(metas: Seq<Seq<char>>, n: int) -> Seq<Seq<char>>
    decreases n,
{
    if n <= 0 {
        Seq::empty()
    } else {
        let prev = distinct_names(metas, n - 1);
        match indexed_name(metas[n - 1]) {
            Some(name) => if prev.contains(name) {
                prev
            } else {
                prev.push(name)
            },
            None => prev,
        }
    }
}

/// One `Duplicate` problem for each of the first `k` names that more
/// than one metadata text stands for.
pub open spec fn duplicate_issues(metas: Seq<Seq<char>>, names: Seq<Seq<char>>, k: int) -> Seq<
    IssueView,
>
    decreases k,
{
    if k <= 0 {
        Seq::empty()
    } else {
        let prev = duplicate_issues(metas, names, k - 1);
        let count = occurrences(metas, metas.len() as int, names[k - 1]);
        if count > 1 {
            prev.push(IssueView::Duplicate { package: names[k - 1], count: count as usize })
        } else {
            prev
        }
    }
}

/// The problem, if any, that one line of the metadata of `package`
/// stands for.
///
/// Only a line `Requires-Dist: ...` can stand for one. What follows the
/// first `;` is the marker; a requirement whose marker excludes the
/// environment is skipped, and so is one with a URL (` @ `). Of the
/// others, one whose package is not installed is `Missing`, and one whose
/// specifier the installed version does not satisfy is `Incompatible`.
pub open spec fn requirement_issue(
    line: Seq<char>,
    package: Seq<char>,
    py: Seq<char>,
    metas: Seq<Seq<char>>,
) -> Option<IssueView> {
    let req = line.skip("Requires-Dist: "@.len() as int);
    let semi = find_char(req, ';');
    let base = trim(req.take(semi));
    let dep = requirement_parts(base).0;
    let spec = requirement_parts(base).1;
    if !starts_with(line, "Requires-Dist: "@) {
        None
    } else if semi < req.len() && excludes(trim(req.skip(semi + 1)), py) {
        None
    } else if contains_sub(base, " @ "@) {
        None
    } else {
        match installed_version(metas, metas.len() as int, normalized(dep)) {
            None => Some(IssueView::Missing { package, requires: dep }),
            Some(v) => if spec.len() > 0 && !satisfies(v, spec) {
                Some(IssueView::Incompatible { package, requires: dep + spec, installed_version: v })
            } else {
                None
            },
        }
    }
}

/// The problems that the first `n` lines of the metadata of `package`
/// stand for, in the order of the lines.
pub open spec fn line_issues(
    ls: Seq<Seq<char>>,
    n: int,
    package: Seq<char>,
    py: Seq<char>,
    metas: Seq<Seq<char>>,
) -> Seq<IssueView>
    decreases n,
{
    if n <= 0 {
        Seq::empty()
    } else {
        match requirement_issue(ls[n - 1], package, py, metas) {
            Some(issue) => line_issues(ls, n - 1, package, py, metas).push(issue),
            None => line_issues(ls, n - 1, package, py, metas),
        }
    }
}

/// The problems with the requirements of the distribution with the
/// metadata text `meta`. The distribution is named as its metadata names
/// it.
pub open spec fn package_issues(meta: Seq<char>, py: Seq<char>, metas: Seq<Seq<char>>) -> Seq<
    IssueView,
> {
    match metadata_fields(meta) {
        (Some(name), Some(_)) => if indexed_name(meta).is_some() {
            line_issues(lines(meta), lines(meta).len() as int, name, py, metas)
        } else {
            Seq::empty()
        },
        _ => Seq::empty(),
    }
}

/// The problems with the requirements of the first `m` distributions.
pub open spec fn requirement_issues(metas: Seq<Seq<char>>, m: int, py: Seq<char>) -> Seq<IssueView>
    decreases m,
{
    if m <= 0 {
        Seq::empty()
    } else {
        requirement_issues(metas, m - 1, py) + package_issues(metas[m - 1], py, metas)
    }
}

/// The dependency problems of an environment with the Python version
/// `py` whose distributions have the metadata texts `metas`: first one
/// `Duplicate` for each package that is installed more than once, then
/// the problems with requirements, in the order of the scan. Nothing is
/// merged: a package that several others miss is reported for each.
pub open spec fn dependency_issues(metas: Seq<Seq<char>>, py: Seq<char>) -> Seq<IssueView> {
    duplicate_issues(
        metas,
        distinct_names(metas, metas.len() as int),
        distinct_names(metas, metas.len() as int).len() as int,
    ) + requirement_issues(metas, metas.len() as int, py)
}

/// A package is among the distinct names exactly when it has an
/// installed version, and exactly when some text stands for it; no name
/// is listed twice.
pub proof fn lemma_index(metas: Seq<Seq<char>>, n: int)
    ensures
        forall|name: Seq<char>|
            #![trigger installed_version(metas, n, name)]
            #![trigger distinct_names(metas, n).contains(name)]
            distinct_names(metas, n).contains(name) <==> installed_version(
                metas,
                n,
                name,
            ).is_some(),
        forall|name: Seq<char>|
            #![trigger occurrences(metas, n, name)]
            distinct_names(metas, n).contains(name) <==> occurrences(metas, n, name) > 0,
        distinct_names(metas, n).no_duplicates(),
        forall|name: Seq<char>|
            #![trigger occurrences(metas, n, name)]
            occurrences(metas, n, name) <= (if n > 0 {
                n
            } else {
                0
            }),
    decreases n,
{
    if n > 0 {
        lemma_index(metas, n - 1);
        let prev = distinct_names(metas, n - 1);
        let cur = distinct_names(metas, n);
        let added = indexed_name(metas[n - 1]);
        assert forall|name: Seq<char>|
            #![trigger installed_version(metas, n, name)]
            #![trigger distinct_names(metas, n).contains(name)]
            cur.contains(name) <==> installed_version(metas, n, name).is_some() by {
            lemma_contains_step(prev, cur, added, name);
            assert(prev.contains(name) <==> installed_version(metas, n - 1, name).is_some());
        }
        assert forall|name: Seq<char>|
            #![trigger occurrences(metas, n, name)]
            cur.contains(name) <==> occurrences(metas, n, name) > 0 by {
            lemma_contains_step(prev, cur, added, name);
            assert(prev.contains(name) <==> occurrences(metas, n - 1, name) > 0);
        }
        assert forall|name: Seq<char>|
            #![trigger occurrences(metas, n, name)]
            occurrences(metas, n, name) <= n by {
            assert(occurrences(metas, n - 1, name) <= (if n - 1 > 0 {
                n - 1
            } else {
                0
            }));
        }
    } else {
        assert forall|name: Seq<char>| !(#[trigger] distinct_names(metas, n).contains(name)) by {}
    }
}

proof fn lemma_contains_step(
    prev: Seq<Seq<char>>,
    cur: Seq<Seq<char>>,
    added: Option<Seq<char>>,
    name: Seq<char>,
)
    requires
        cur == (match added {
            Some(a) => if prev.contains(a) {
                prev
            } else {
                prev.push(a)
            },
            None => prev,
        }),
    ensures
        cur.contains(name) <==> (prev.contains(name) || added == Some(name)),
{
    match added {
        Some(a) => {
            if !prev.contains(a) {
                if prev.contains(name) {
                    let i = choose|i: int| 0 <= i < prev.len() && prev[i] == name;
                    assert(cur[i] == name);
                }
                if a == name {
                    assert(cur[prev.len() as int] == name);
                }
            }
        },
        None => {},
    }
}

/// The marker of a `Requires-Dist` line: what follows its first `;`,
/// without white space around it.
pub open spec fn marker_of(line: Seq<char>) -> Option<Seq<char>> {
    let req = line.skip("Requires-Dist: "@.len() as int);
    let semi = find_char(req, ';');
    if starts_with(line, "Requires-Dist: "@) && semi < req.len() {
        Some(trim(req.skip(semi + 1)))
    } else {
        None
    }
}

/// The requirement of a `Requires-Dist` line: what stands before its
/// marker, as the name of the package and the specifier.
pub open spec fn requirement_of(line: Seq<char>) -> (Seq<char>, Seq<char>) {
    let req = line.skip("Requires-Dist: "@.len() as int);
    requirement_parts(trim(req.take(find_char(req, ';'))))
}

/// A requirement whose marker excludes the environment stands for no
/// problem, whatever is installed.
pub proof fn lemma_excluded_requirement(
    line: Seq<char>,
    package: Seq<char>,
    py: Seq<char>,
    metas: Seq<Seq<char>>,
)
    requires
        marker_of(line) matches Some(m) && excludes(m, py),
    ensures
        requirement_issue(line, package, py, metas).is_none(),
{
}

/// A requirement that is not skipped stands for `Missing`, a note,
/// where its package is not installed. Where the package is installed
/// in a version that does not satisfy its specifier, it stands for
/// `Incompatible`, a warning, with the requirement as it was written and
/// the installed version.
pub proof fn lemma_checked_requirement(
    line: Seq<char>,
    package: Seq<char>,
    py: Seq<char>,
    metas: Seq<Seq<char>>,
)
    requires
        starts_with(line, "Requires-Dist: "@),
        marker_of(line) matches Some(m) ==> !excludes(m, py),
        !contains_sub(
            trim(
                line.skip("Requires-Dist: "@.len() as int).take(
                    find_char(line.skip("Requires-Dist: "@.len() as int), ';'),
                ),
            ),
            " @ "@,
        ),
    ensures
        requirement_issue(line, package, py, metas) == (match installed_version(
            metas,
            metas.len() as int,
            normalized(requirement_of(line).0),
        ) {
            None => Some(IssueView::Missing { package, requires: requirement_of(line).0 }),
            Some(v) => if requirement_of(line).1.len() > 0 && !satisfies(
                v,
                requirement_of(line).1,
            ) {
                Some(
                    IssueView::Incompatible {
                        package,
                        requires: requirement_of(line).0 + requirement_of(line).1,
                        installed_version: v,
                    },
                )
            } else {
                None
            },
        }),
        requirement_issue(line, package, py, metas) matches Some(issue) ==> issue.severity() == (
        if installed_version(metas, metas.len() as int, normalized(requirement_of(line).0))
            is None {
            HealthLevel::Info
        } else {
            HealthLevel::Warn
        }),
{
}

/// How many of the first `n` problems say that the package `name` is
/// installed more than once.
pub open spec fn duplicates_named(issues: Seq<IssueView>, n: int, name: Seq<char>) -> nat
    decreases n,
{
    if n <= 0 {
        0
    } else if issues[n - 1] matches IssueView::Duplicate { package, .. } && package == name {
        duplicates_named(issues, n - 1, name) + 1
    } else {
        duplicates_named(issues, n - 1, name)
    }
}

/// Whether a problem is the report of a duplicate that gives the number
/// of the distributions of its package, which is more than one.
pub open spec fn counts_distributions(issue: IssueView, metas: Seq<Seq<char>>) -> bool {
    match issue {
        IssueView::Duplicate { package, count } => count > 1 && count == occurrences(
            metas,
            metas.len() as int,
            package,
        ),
        _ => false,
    }
}

/// Whether `name` is one of the first `k` names.
spec fn among(names: Seq<Seq<char>>, k: int, name: Seq<char>) -> bool
    decreases k,
{
    k > 0 && (names[k - 1] == name || among(names, k - 1, name))
}

proof fn lemma_among(names: Seq<Seq<char>>, k: int, name: Seq<char>)
    requires
        0 <= k <= names.len(),
    ensures
        among(names, k, name) <==> exists|i: int| 0 <= i < k && #[trigger] names[i] == name,
    decreases k,
{
    if k > 0 {
        lemma_among(names, k - 1, name);
        if among(names, k - 1, name) {
            let i = choose|i: int| 0 <= i < k - 1 && #[trigger] names[i] == name;
            assert(0 <= i < k && names[i] == name);
        }
        if names[k - 1] == name {
            assert(0 <= k - 1 < k && names[k - 1] == name);
        }
    }
}

proof fn lemma_duplicates_named_prefix(
    a: Seq<IssueView>,
    b: Seq<IssueView>,
    n: int,
    name: Seq<char>,
)
    requires
        0 <= n <= a.len(),
        n <= b.len(),
        forall|i: int| 0 <= i < n ==> a[i] == b[i],
    ensures
        duplicates_named(a, n, name) == duplicates_named(b, n, name),
    decreases n,
{
    if n > 0 {
        lemma_duplicates_named_prefix(a, b, n - 1, name);
    }
}

proof fn lemma_duplicates_named(
    metas: Seq<Seq<char>>,
    names: Seq<Seq<char>>,
    k: int,
    name: Seq<char>,
)
    requires
        0 <= k <= names.len(),
        names.no_duplicates(),
        metas.len() <= usize::MAX,
    ensures
        duplicates_named(
            duplicate_issues(metas, names, k),
            duplicate_issues(metas, names, k).len() as int,
            name,
        ) == (if among(names, k, name) && occurrences(metas, metas.len() as int, name) > 1 {
            1nat
        } else {
            0nat
        }),
        forall|i: int|
            0 <= i < duplicate_issues(metas, names, k).len() ==> counts_distributions(
                #[trigger] duplicate_issues(metas, names, k)[i],
                metas,
            ),
    decreases k,
{
    if k > 0 {
        lemma_duplicates_named(metas, names, k - 1, name);
        lemma_index(metas, metas.len() as int);
        let prev = duplicate_issues(metas, names, k - 1);
        let cur = duplicate_issues(metas, names, k);
        let last = names[k - 1];
        let count = occurrences(metas, metas.len() as int, last);
        if among(names, k - 1, last) {
            lemma_among(names, k - 1, last);
            let i = choose|i: int| 0 <= i < k - 1 && #[trigger] names[i] == last;
            assert(names[i] == names[k - 1]);
        }
        if count > 1 {
            assert(cur == prev.push(IssueView::Duplicate { package: last, count: count as usize }));
            lemma_duplicates_named_prefix(cur, prev, prev.len() as int, name);
            assert forall|i: int| 0 <= i < cur.len() implies counts_distributions(
                #[trigger] cur[i],
                metas,
            ) by {
                if i < prev.len() {
                    assert(cur[i] == prev[i]);
                }
            }
        }
    }
}

/// A package that is installed more than once is reported as a
/// duplicate exactly once, with the number of its distributions; a
/// package that is installed once or not at all is not reported. The
/// problems with requirements hold no report of a duplicate.
pub proof fn lemma_duplicate_reported_once(metas: Seq<Seq<char>>, py: Seq<char>, name: Seq<char>)
    requires
        metas.len() <= usize::MAX,
    ensures
        ({
            let names = distinct_names(metas, metas.len() as int);
            let found = duplicate_issues(metas, names, names.len() as int);
            &&& duplicates_named(found, found.len() as int, name) == (if occurrences(
                metas,
                metas.len() as int,
                name,
            ) > 1 {
                1nat
            } else {
                0nat
            })
            &&& forall|i: int|
                0 <= i < found.len() ==> counts_distributions(#[trigger] found[i], metas)
            &&& dependency_issues(metas, py) == found + requirement_issues(
                metas,
                metas.len() as int,
                py,
            )
        }),
        forall|i: int|
            0 <= i < requirement_issues(metas, metas.len() as int, py).len() ==> !(
            #[trigger] requirement_issues(metas, metas.len() as int, py)[i] is Duplicate),
{
    let names = distinct_names(metas, metas.len() as int);
    lemma_index(metas, metas.len() as int);
    lemma_duplicates_named(metas, names, names.len() as int, name);
    lemma_among(names, names.len() as int, name);
    if names.contains(name) {
        let i = choose|i: int| 0 <= i < names.len() && names[i] == name;
        assert(0 <= i < names.len() && names[i] == name);
    }
    lemma_requirements_name_no_duplicate(metas, metas.len() as int, py);
}

proof fn lemma_lines_name_no_duplicate(
    ls: Seq<Seq<char>>,
    n: int,
    package: Seq<char>,
    py: Seq<char>,
    metas: Seq<Seq<char>>,
)
    requires
        0 <= n <= ls.len(),
    ensures
        forall|i: int|
            0 <= i < line_issues(ls, n, package, py, metas).len() ==> !(#[trigger] line_issues(
                ls,
                n,
                package,
                py,
                metas,
            )[i] is Duplicate),
    decreases n,
{
    if n > 0 {
        lemma_lines_name_no_duplicate(ls, n - 1, package, py, metas);
    }
}

proof fn lemma_requirements_name_no_duplicate(metas: Seq<Seq<char>>, m: int, py: Seq<char>)
    requires
        0 <= m <= metas.len(),
    ensures
        forall|i: int|
            0 <= i < requirement_issues(metas, m, py).len() ==> !(#[trigger] requirement_issues(
                metas,
                m,
                py,
            )[i] is Duplicate),
    decreases m,
{
    if m > 0 {
        lemma_requirements_name_no_duplicate(metas, m - 1, py);
        let meta = metas[m - 1];
        lemma_lines_name_no_duplicate(
            lines(meta),
            lines(meta).len() as int,
            match metadata_fields(meta).0 {
                Some(n) => n,
                None => Seq::empty(),
            },
            py,
            metas,
        );
    }
}

/// What the index knows of one installed package.
struct IndexEntry {
    /// The normalized name.
    name: Vec<char>,
    /// The version of the last distribution scanned for the name.
    version: Vec<char>,
    /// The number of distributions scanned for the name.
    count: usize,
}

/// Whether `idx` is the index of the first `k` metadata texts: one entry
/// for each distinct name, in the order of first occurrence, with the
/// installed version and the number of occurrences.
spec fn index_of(idx: Seq<IndexEntry>, metas: Seq<Seq<char>>, k: int) -> bool {
    &&& idx.len() == distinct_names(metas, k).len()
    &&& forall|j: int|
        0 <= j < idx.len() ==> (#[trigger] idx[j]).name@ == distinct_names(metas, k)[j]
            && installed_version(metas, k, idx[j].name@) == Some(idx[j].version@) && idx[j].count
            == occurrences(metas, k, idx[j].name@)
}

fn find_entry(idx: &Vec<IndexEntry>, name: &Vec<char>) -> (r: Option<usize>)
    ensures
        match r {
            Some(j) => j < idx.len() && idx@[j as int].name@ == name@,
            None => forall|j: int| 0 <= j < idx.len() ==> (#[trigger] idx@[j]).name@ != name@,
        },
{
    let mut j: usize = 0;
    while j < idx.len()
        invariant
            j <= idx.len(),
            forall|i: int| 0 <= i < j ==> (#[trigger] idx@[i]).name@ != name@,
        decreases idx.len() - j,
    {
        if same(&idx[j].name, name) {
            return Some(j);
        }
        j += 1;
    }
    None
}

/// The name, the normalized name and the version that a metadata text
/// gives, if the distribution takes part in the check.
fn indexed_of(text: &Vec<char>) -> (r: Option<(Vec<char>, Vec<char>, Vec<char>)>)
    ensures
        match r {
            Some((raw, name, version)) => metadata_fields(text@) == (Some(raw@), Some(version@))
                && name@ == normalized(raw@) && name@.len() > 0,
            None => indexed_name(text@).is_none(),
        },
{
    match metadata_fields_of(text) {
        (Some(raw), Some(version)) => {
            let name = normalized_of(&raw);
            if name.len() > 0 {
                Some((raw, name, version))
            } else {
                None
            }
        },
        _ => None,
    }
}

/// Builds the index of the installed packages from the metadata texts.
fn build_index(texts: &Vec<Vec<char>>) -> (idx: Vec<IndexEntry>)
    ensures
        index_of(idx@, views(texts@), texts.len() as int),
{
    let mut idx: Vec<IndexEntry> = Vec::new();
    let ghost metas = views(texts@);
    let mut k: usize = 0;
    while k < texts.len()
        invariant
            k <= texts.len(),
            metas == views(texts@),
            index_of(idx@, metas, k as int),
        decreases texts.len() - k,
    {
        assert(metas[k as int] == texts@[k as int]@);
        proof {
            lemma_index(metas, k as int);
        }
        let ghost dn = distinct_names(metas, k as int);
        let ghost old_idx = idx@;
        match indexed_of(&texts[k]) {
            Some((_, name, version)) => {
                assert(indexed_name(metas[k as int]) == Some(name@));
                assert(indexed_version(metas[k as int]) == version@);
                match find_entry(&idx, &name) {
                    Some(j) => {
                        assert(dn[j as int] == name@);
                        assert(dn.contains(name@));
                        let count = idx[j].count + 1;
                        idx.set(j, IndexEntry { name, version, count });
                        assert forall|i: int| 0 <= i < idx@.len() implies (#[trigger] idx@[i]).name@
                            == distinct_names(metas, k + 1)[i] && installed_version(
                            metas,
                            k + 1,
                            idx@[i].name@,
                        ) == Some(idx@[i].version@) && idx@[i].count == occurrences(
                            metas,
                            k + 1,
                            idx@[i].name@,
                        ) by {
                            if i != j {
                                assert(idx@[i] == old_idx[i]);
                                assert(dn[i] != dn[j as int]);
                            }
                        }
                    },
                    None => {
                        assert(!dn.contains(name@)) by {
                            if dn.contains(name@) {
                                let i = choose|i: int| 0 <= i < dn.len() && dn[i] == name@;
                                assert(old_idx[i].name@ == name@);
                            }
                        }
                        assert(occurrences(metas, k as int, name@) == 0);
                        idx.push(IndexEntry { name, version, count: 1 });
                        assert forall|i: int| 0 <= i < idx@.len() implies (#[trigger] idx@[i]).name@
                            == distinct_names(metas, k + 1)[i] && installed_version(
                            metas,
                            k + 1,
                            idx@[i].name@,
                        ) == Some(idx@[i].version@) && idx@[i].count == occurrences(
                            metas,
                            k + 1,
                            idx@[i].name@,
                        ) by {
                            if i < old_idx.len() {
                                assert(idx@[i] == old_idx[i]);
                                assert(dn.contains(dn[i]));
                            }
                        }
                    },
                }
            },
            None => {
                assert(indexed_name(metas[k as int]).is_none());
                assert forall|i: int| 0 <= i < idx@.len() implies (#[trigger] idx@[i]).name@
                    == distinct_names(metas, k + 1)[i] && installed_version(
                    metas,
                    k + 1,
                    idx@[i].name@,
                ) == Some(idx@[i].version@) && idx@[i].count == occurrences(
                    metas,
                    k + 1,
                    idx@[i].name@,
                ) by {}
            },
        }
        k += 1;
    }
    idx
}

/// Looks a package up in the index by its normalized name.
fn lookup(idx: &Vec<IndexEntry>, name: &Vec<char>, Ghost(metas): Ghost<Seq<Seq<char>>>) -> (r:
    Option<Vec<char>>)
    requires
        index_of(idx@, metas, metas.len() as int),
    ensures
        crate::text::opt_view(r) == installed_version(metas, metas.len() as int, name@),
{
    proof {
        lemma_index(metas, metas.len() as int);
    }
    match find_entry(idx, name) {
        Some(j) => Some(copy(&idx[j].version)),
        None => {
            let ghost dn = distinct_names(metas, metas.len() as int);
            assert(!dn.contains(name@)) by {
                if dn.contains(name@) {
                    let i = choose|i: int| 0 <= i < dn.len() && dn[i] == name@;
                    assert(idx@[i].name@ == name@);
                }
            }
            None
        },
    }
}

fn requirement_issue_of(
    line: &Vec<char>,
    package: &Vec<char>,
    py: &Vec<char>,
    idx: &Vec<IndexEntry>,
    Ghost(metas): Ghost<Seq<Seq<char>>>,
) -> (r: Option<DepIssue>)
    requires
        index_of(idx@, metas, metas.len() as int),
    ensures
        match r {
            Some(issue) => requirement_issue(line@, package@, py@, metas) == Some(issue@),
            None => requirement_issue(line@, package@, py@, metas).is_none(),
        },
{
    let key = chars_of("Requires-Dist: ");
    if !has_prefix(line, &key) {
        return None;
    }
    let req = slice(line, key.len(), line.len());
    let semi = first_index_of(&req, CharClass::Only(';'), true);
    if semi < req.len() {
        let marker = trim_of(&slice(&req, semi + 1, req.len()));
        if excludes_of(&marker, py) {
            return None;
        }
    }
    let base = trim_of(&slice(&req, 0, semi));
    if contains_str(&base, " @ ") {
        return None;
    }
    let (dep, spec) = requirement_parts_of(&base);
    match lookup(idx, &normalized_of(&dep), Ghost(metas)) {
        None => Some(DepIssue::Missing { package: string_of(package), requires: string_of(&dep) }),
        Some(v) => {
            if spec.len() > 0 && !satisfies_chars(&v, &spec) {
                let mut wanted = copy(&dep);
                append(&mut wanted, &spec);
                Some(
                    DepIssue::Incompatible {
                        package: string_of(package),
                        requires: string_of(&wanted),
                        installed_version: string_of(&v),
                    },
                )
            } else {
                None
            }
        },
    }
}

/// Checks the dependency constraints of an environment.
///
/// `metadata_texts` holds the text of the `METADATA` file of each
/// distribution, in the order of the scan, and `python_version` the
/// Python version of the environment. The result lists a `Duplicate` for
/// each package installed more than once, then a `Missing` or an
/// `Incompatible` for each requirement that is not met.
pub fn check_dependencies(metadata_texts: &Vec<String>, python_version: &str) -> (r: Vec<DepIssue>)
    ensures
        issue_views(r@) == dependency_issues(string_views(metadata_texts@), python_version@),
{
    let py = chars_of(python_version);
    let mut texts: Vec<Vec<char>> = Vec::new();
    let mut t: usize = 0;
    while t < metadata_texts.len()
        invariant
            t <= metadata_texts.len(),
            texts@.len() == t,
            forall|i: int| 0 <= i < t ==> (#[trigger] texts@[i])@ == metadata_texts@[i]@,
        decreases metadata_texts.len() - t,
    {
        texts.push(chars_of(metadata_texts[t].as_str()));
        t += 1;
    }
    let ghost metas = views(texts@);
    assert(metas =~= string_views(metadata_texts@));
    let idx = build_index(&texts);
    let ghost dn = distinct_names(metas, metas.len() as int);
    let mut out: Vec<DepIssue> = Vec::new();
    let mut j: usize = 0;
    proof {
        assert(issue_views(out@) =~= duplicate_issues(metas, dn, 0));
    }
    while j < idx.len()
        invariant
            j <= idx.len(),
            metas == views(texts@),
            dn == distinct_names(metas, metas.len() as int),
            index_of(idx@, metas, metas.len() as int),
            issue_views(out@) == duplicate_issues(metas, dn, j as int),
        decreases idx.len() - j,
    {
        if idx[j].count > 1 {
            let issue = DepIssue::Duplicate {
                package: string_of(&idx[j].name),
                count: idx[j].count,
            };
            proof {
                lemma_issue_views_push(out@, issue);
            }
            out.push(issue);
        }
        j += 1;
    }
    let ghost dups = issue_views(out@);
    let mut m: usize = 0;
    proof {
        assert(dups + requirement_issues(metas, 0, py@) =~= dups);
    }
    while m < texts.len()
        invariant
            m <= texts.len(),
            metas == views(texts@),
            index_of(idx@, metas, metas.len() as int),
            issue_views(out@) == dups + requirement_issues(metas, m as int, py@),
        decreases texts.len() - m,
    {
        assert(metas[m as int] == texts@[m as int]@);
        let ghost before = issue_views(out@);
        match indexed_of(&texts[m]) {
            Some((package, _, _)) => {
                let ls = lines_of(&texts[m]);
                let mut n: usize = 0;
                proof {
                    assert(before + line_issues(views(ls@), 0, package@, py@, metas) =~= before);
                }
                while n < ls.len()
                    invariant
                        n <= ls.len(),
                        index_of(idx@, metas, metas.len() as int),
                        issue_views(out@) == before + line_issues(
                            views(ls@),
                            n as int,
                            package@,
                            py@,
                            metas,
                        ),
                    decreases ls.len() - n,
                {
                    assert(views(ls@)[n as int] == ls@[n as int]@);
                    if let Some(issue) = requirement_issue_of(
                        &ls[n],
                        &package,
                        &py,
                        &idx,
                        Ghost(metas),
                    ) {
                        proof {
                            lemma_issue_views_push(out@, issue);
                            assert(before + line_issues(
                                views(ls@),
                                n as int,
                                package@,
                                py@,
                                metas,
                            ).push(issue@) =~= (before + line_issues(
                                views(ls@),
                                n as int,
                                package@,
                                py@,
                                metas,
                            )).push(issue@));
                        }
                        out.push(issue);
                    }
                    n += 1;
                }
                assert(issue_views(out@) =~= dups + requirement_issues(metas, m + 1, py@));
            },
            None => {
                assert(package_issues(metas[m as int], py@, metas) =~= Seq::<IssueView>::empty());
                assert(issue_views(out@) =~= dups + requirement_issues(metas, m + 1, py@));
            },
        }
        m += 1;
    }
    out
}

} // verus!
