//! The health check: the findings on the Python binary and
//! `site-packages`, on the CUDA builds of the installed packages and on
//! the dependency problems, put together into a report.
//!
//! Looking at the file system is the caller's part; it hands in what it
//! found.

use crate::deps::{issue_views, DepIssue, IssueView};
use crate::scanner::{package_views, PackageMetadata, PackageView};
use crate::text::{
    append, append_str, chars_of, decimal, decimal_of, find_char, first_index_of,
    has_prefix_str, opt_str_view, same, same_str, slice, starts_with, string_of, CharClass,
};
use crate::types::{
    Diagnostic, DiagnosticView, HealthDiagnostic, HealthLevel, HealthReport,
};
use vstd::prelude::*;

verus! {

/// What was found at `bin/python` of an environment.
#[derive(Debug, Clone)]
pub enum PythonProbe {
    /// Nothing is there.
    Missing,
    /// A symlink whose target resolves neither as it stands nor from
    /// `bin/`.
    BrokenSymlink { target: String },
    /// A file, or a symlink that resolves.
    Present,
}

/// The views of a sequence of findings.
pub open spec fn diagnostic_views(v: Seq<HealthDiagnostic>) -> Seq<DiagnosticView> {
    Seq::new(v.len(), |i: int| v[i]@)
}

/// The finding on the Python binary. The version is the one that
/// `pyvenv.cfg` gives, `unknown` where it gives none.
pub open spec fn python_finding(probe: PythonProbe, version: Option<Seq<char>>) -> DiagnosticView {
    match probe {
        PythonProbe::Missing => DiagnosticView::PythonMissing,
        PythonProbe::BrokenSymlink { target } => DiagnosticView::BrokenSymlink {
            target: target@,
        },
        PythonProbe::Present => DiagnosticView::PythonOk {
            version: match version {
                Some(v) => v,
                None => "unknown"@,
            },
        },
    }
}

/// The finding on `site-packages`.
pub open spec fn site_finding(found: bool) -> DiagnosticView {
    if found {
        DiagnosticView::SitePackagesOk
    } else {
        DiagnosticView::SitePackagesMissing
    }
}

/// The build tag of a version: what follows the first `+`, where that is
/// `cpu` or starts with `cu`.
pub open spec fn build_tag(version: Seq<char>) -> Option<Seq<char>> {
    let p = find_char(version, '+');
    let suffix = version.skip(p + 1);
    if p < version.len() && (starts_with(suffix, "cu"@) || suffix == "cpu"@) {
        Some(suffix)
    } else {
        None
    }
}

/// The build tag of a package.
pub open spec fn package_tag(p: PackageView) -> Option<Seq<char>> {
    match p.version {
        Some(v) => build_tag(v),
        None => None,
    }
}

/// The build tags of the first `n` packages, each once, in the order in
/// which they first occur.
pub open spec fn distinct_tags(ps: Seq<PackageView>, n: int) -> Seq<Seq<char>>
    decreases n,
{
    if n <= 0 {
        Seq::empty()
    } else {
        let prev = distinct_tags(ps, n - 1);
        match package_tag(ps[n - 1]) {
            Some(t) => if prev.contains(t) {
                prev
            } else {
                prev.push(t)
            },
            None => prev,
        }
    }
}

/// How a package is listed among the packages of a build: `name==version`.
pub open spec fn member_text(p: PackageView) -> Seq<char> {
    p.name + "=="@ + (match p.version {
        Some(v) => v,
        None => Seq::empty(),
    })
}

/// The packages among the first `n` with the build tag `tag`, separated
/// by `, `.
pub open spec fn members_text(ps: Seq<PackageView>, n: int, tag: Seq<char>) -> Seq<char>
    decreases n,
{
    if n <= 0 {
        Seq::empty()
    } else {
        let prev = members_text(ps, n - 1, tag);
        if package_tag(ps[n - 1]) == Some(tag) {
            if prev.len() == 0 {
                member_text(ps[n - 1])
            } else {
                prev + ", "@ + member_text(ps[n - 1])
            }
        } else {
            prev
        }
    }
}

/// One line for each of the first `k` build tags: the tag and the
/// packages that have it.
pub open spec fn build_lines(ps: Seq<PackageView>, tags: Seq<Seq<char>>, k: int) -> Seq<char>
    decreases k,
{
    if k <= 0 {
        Seq::empty()
    } else {
        build_lines(ps, tags, k - 1) + "\n    +"@ + tags[k - 1] + ": "@ + members_text(
            ps,
            ps.len() as int,
            tags[k - 1],
        )
    }
}

/// How many of the first `k` build tags are CUDA builds.
pub open spec fn cuda_builds(tags: Seq<Seq<char>>, k: int) -> nat
    decreases k,
{
    if k <= 0 {
        0
    } else if starts_with(tags[k - 1], "cu"@) {
        cuda_builds(tags, k - 1) + 1
    } else {
        cuda_builds(tags, k - 1)
    }
}

/// The finding on the CUDA builds: none where no package has a build
/// tag; consistent where all tags are the same; a mismatch where two
/// CUDA builds are mixed, and else a conflict of CPU and CUDA builds.
pub open spec fn cuda_findings(ps: Seq<PackageView>) -> Seq<DiagnosticView> {
    let tags = distinct_tags(ps, ps.len() as int);
    let details = "Mixed CUDA versions detected:"@ + build_lines(ps, tags, tags.len() as int);
    if tags.len() == 0 {
        Seq::empty()
    } else if tags.len() == 1 {
        seq![DiagnosticView::CudaConsistent { suffix: tags[0] }]
    } else if cuda_builds(tags, tags.len() as int) >= 2 {
        seq![DiagnosticView::CudaMismatch { details }]
    } else {
        seq![DiagnosticView::CpuCudaConflict { details }]
    }
}

/// Those of the first `n` problems that are missing packages (`missing`
/// set) or that are not, in order.
pub open spec fn selected(issues: Seq<IssueView>, n: int, missing: bool) -> Seq<IssueView>
    decreases n,
{
    if n <= 0 {
        Seq::empty()
    } else if issues[n - 1].is_missing() == missing {
        selected(issues, n - 1, missing).push(issues[n - 1])
    } else {
        selected(issues, n - 1, missing)
    }
}

/// The messages of the first `k` problems, one to a line, indented.
pub open spec fn message_lines(sel: Seq<IssueView>, k: int) -> Seq<char>
    decreases k,
{
    if k <= 0 {
        Seq::empty()
    } else if k == 1 {
        "    "@ + sel[0].text()
    } else {
        message_lines(sel, k - 1) + "\n"@ + "    "@ + sel[k - 1].text()
    }
}

/// The details of a finding on dependencies: the messages of at most
/// `cap` problems, and a line that counts the rest.
pub open spec fn details_text(sel: Seq<IssueView>, cap: nat) -> Seq<char> {
    if sel.len() > cap {
        message_lines(sel, cap as int) + "\n    ... and "@ + decimal((sel.len() - cap) as nat)
            + " more"@
    } else {
        message_lines(sel, sel.len() as int)
    }
}

/// The most messages that a finding on version conflicts lists.
pub const MAX_CONFLICT_DETAILS: usize = 10;

/// The most messages that a finding on missing dependencies lists.
pub const MAX_MISSING_DETAILS: usize = 5;

/// The findings on dependencies: conflicts (incompatible and duplicate
/// packages) first, then missing packages; one finding that all is well
/// where there is no problem.
pub open spec fn dependency_findings(issues: Seq<IssueView>) -> Seq<DiagnosticView> {
    let conflicts = selected(issues, issues.len() as int, false);
    let missing = selected(issues, issues.len() as int, true);
    if issues.len() == 0 {
        seq![DiagnosticView::DependenciesOk]
    } else {
        (if conflicts.len() > 0 {
            seq![
                DiagnosticView::VersionConflicts {
                    count: conflicts.len() as usize,
                    details: details_text(conflicts, MAX_CONFLICT_DETAILS as nat),
                },
            ]
        } else {
            Seq::empty()
        }) + (if missing.len() > 0 {
            seq![
                DiagnosticView::MissingDependencies {
                    count: missing.len() as usize,
                    details: details_text(missing, MAX_MISSING_DETAILS as nat),
                },
            ]
        } else {
            Seq::empty()
        })
    }
}

/// The findings of a health check, in order: the Python binary,
/// `site-packages`, the CUDA builds and the dependencies.
pub open spec fn health_findings(
    probe: PythonProbe,
    version: Option<Seq<char>>,
    site_packages_found: bool,
    packages: Seq<PackageView>,
    issues: Seq<IssueView>,
) -> Seq<DiagnosticView> {
    seq![python_finding(probe, version), site_finding(site_packages_found)] + cuda_findings(
        packages,
    ) + dependency_findings(issues)
}

/// The level that the quick check gives: `Fail` where the Python binary
/// or `site-packages` is not in order; else `Warn` where builds are mixed
/// or a problem other than a missing package is found; else `Info` where
/// a package is missing; else `Pass`.
pub open spec fn quick_level(
    probe: PythonProbe,
    site_packages_found: bool,
    packages: Seq<PackageView>,
    issues: Seq<IssueView>,
) -> HealthLevel {
    if !(probe is Present) || !site_packages_found {
        HealthLevel::Fail
    } else if distinct_tags(packages, packages.len() as int).len() >= 2 || selected(
        issues,
        issues.len() as int,
        false,
    ).len() > 0 {
        HealthLevel::Warn
    } else if selected(issues, issues.len() as int, true).len() > 0 {
        HealthLevel::Info
    } else {
        HealthLevel::Pass
    }
}

/// The most severe level among findings given as views.
pub open spec fn worst_of(items: Seq<DiagnosticView>, n: int) -> HealthLevel
    decreases n,
{
    if n <= 0 {
        HealthLevel::Pass
    } else {
        worst_of(items, n - 1).max(items[n - 1].severity())
    }
}

proof fn lemma_worst_of_concat(a: Seq<DiagnosticView>, b: Seq<DiagnosticView>, n: int)
    requires
        0 <= n <= b.len(),
    ensures
        worst_of(a + b, a.len() + n) == worst_of(a, a.len() as int).max(worst_of(b, n)),
    decreases n,
{
    if n == 0 {
        lemma_worst_of_prefix(a + b, a, a.len() as int);
    } else {
        lemma_worst_of_concat(a, b, n - 1);
        assert((a + b)[a.len() + n - 1] == b[n - 1]);
    }
}

proof fn lemma_worst_of_prefix(a: Seq<DiagnosticView>, b: Seq<DiagnosticView>, n: int)
    requires
        0 <= n <= a.len(),
        n <= b.len(),
        forall|i: int| 0 <= i < n ==> a[i] == b[i],
    ensures
        worst_of(a, n) == worst_of(b, n),
    decreases n,
{
    if n > 0 {
        lemma_worst_of_prefix(a, b, n - 1);
    }
}

/// The overall level of a report is the most severe level among the
/// views of its findings.
pub proof fn lemma_overall_of_views(report: HealthReport)
    ensures
        report.overall_level() == worst_of(
            diagnostic_views(report.items@),
            report.items@.len() as int,
        ),
{
    lemma_worst_views(report.items@, report.items@.len() as int);
}

proof fn lemma_worst_views(items: Seq<HealthDiagnostic>, n: int)
    requires
        0 <= n <= items.len(),
    ensures
        crate::types::worst_level(items, n) == worst_of(diagnostic_views(items), n),
    decreases n,
{
    if n > 0 {
        lemma_worst_views(items, n - 1);
    }
}

proof fn lemma_selected_len(issues: Seq<IssueView>, n: int)
    requires
        0 <= n <= issues.len(),
    ensures
        selected(issues, n, true).len() + selected(issues, n, false).len() == n,
    decreases n,
{
    if n > 0 {
        lemma_selected_len(issues, n - 1);
    }
}

/// The quick check gives the overall level of the full report.
pub proof fn lemma_quick_is_overall(
    probe: PythonProbe,
    version: Option<Seq<char>>,
    site_packages_found: bool,
    packages: Seq<PackageView>,
    issues: Seq<IssueView>,
)
    ensures
        quick_level(probe, site_packages_found, packages, issues) == worst_of(
            health_findings(probe, version, site_packages_found, packages, issues),
            health_findings(probe, version, site_packages_found, packages, issues).len() as int,
        ),
{
    let head = seq![python_finding(probe, version), site_finding(site_packages_found)];
    let cuda = cuda_findings(packages);
    let deps = dependency_findings(issues);
    lemma_worst_of_concat(head + cuda, deps, deps.len() as int);
    lemma_worst_of_concat(head, cuda, cuda.len() as int);
    lemma_selected_len(issues, issues.len() as int);
    reveal_with_fuel(worst_of, 3);
    assert(worst_of(head, 2) == python_finding(probe, version).severity().max(
        site_finding(site_packages_found).severity(),
    ));
    let conflicts = selected(issues, issues.len() as int, false);
    let missing = selected(issues, issues.len() as int, true);
    if issues.len() > 0 {
        let c = if conflicts.len() > 0 {
            seq![
                DiagnosticView::VersionConflicts {
                    count: conflicts.len() as usize,
                    details: details_text(conflicts, MAX_CONFLICT_DETAILS as nat),
                },
            ]
        } else {
            Seq::empty()
        };
        let m = if missing.len() > 0 {
            seq![
                DiagnosticView::MissingDependencies {
                    count: missing.len() as usize,
                    details: details_text(missing, MAX_MISSING_DETAILS as nat),
                },
            ]
        } else {
            Seq::empty()
        };
        assert(deps == c + m);
        lemma_worst_of_concat(c, m, m.len() as int);
    }
}


fn build_tag_of(version: &Vec<char>) -> (r: Option<Vec<char>>)
    ensures
        crate::text::opt_view(r) == build_tag(version@),
{
    let p = first_index_of(version, CharClass::Only('+'), true);
    if p >= version.len() {
        return None;
    }
    let suffix = slice(version, p + 1, version.len());
    if has_prefix_str(&suffix, "cu") || same_str(&suffix, "cpu") {
        Some(suffix)
    } else {
        None
    }
}

fn package_tag_of(p: &PackageMetadata) -> (r: Option<Vec<char>>)
    ensures
        crate::text::opt_view(r) == package_tag(p@),
{
    match &p.version {
        Some(v) => build_tag_of(&chars_of(v.as_str())),
        None => None,
    }
}

fn has_tag(tags: &Vec<Vec<char>>, t: &Vec<char>) -> (b: bool)
    ensures
        b == crate::text::views(tags@).contains(t@),
{
    let mut i: usize = 0;
    while i < tags.len()
        invariant
            i <= tags.len(),
            forall|j: int| 0 <= j < i ==> crate::text::views(tags@)[j] != t@,
        decreases tags.len() - i,
    {
        assert(crate::text::views(tags@)[i as int] == tags@[i as int]@);
        if same(&tags[i], t) {
            return true;
        }
        i += 1;
    }
    false
}

fn distinct_tags_of(packages: &Vec<PackageMetadata>) -> (tags: Vec<Vec<char>>)
    ensures
        crate::text::views(tags@) == distinct_tags(package_views(packages@), packages.len() as int),
{
    let mut tags: Vec<Vec<char>> = Vec::new();
    let ghost ps = package_views(packages@);
    let mut i: usize = 0;
    proof {
        assert(crate::text::views(tags@) =~= distinct_tags(ps, 0));
    }
    while i < packages.len()
        invariant
            i <= packages.len(),
            ps == package_views(packages@),
            crate::text::views(tags@) == distinct_tags(ps, i as int),
        decreases packages.len() - i,
    {
        assert(ps[i as int] == packages@[i as int]@);
        if let Some(t) = package_tag_of(&packages[i]) {
            if !has_tag(&tags, &t) {
                proof {
                    crate::text::lemma_views_push(tags@, t);
                }
                tags.push(t);
            }
        }
        i += 1;
    }
    tags
}

fn members_text_of(packages: &Vec<PackageMetadata>, tag: &Vec<char>) -> (out: Vec<char>)
    ensures
        out@ == members_text(package_views(packages@), packages.len() as int, tag@),
{
    let mut out: Vec<char> = Vec::new();
    let ghost ps = package_views(packages@);
    let mut i: usize = 0;
    while i < packages.len()
        invariant
            i <= packages.len(),
            ps == package_views(packages@),
            out@ == members_text(ps, i as int, tag@),
        decreases packages.len() - i,
    {
        assert(ps[i as int] == packages@[i as int]@);
        let p = &packages[i];
        let matches = match package_tag_of(p) {
            Some(t) => same(&t, tag),
            None => false,
        };
        if matches {
            if out.len() > 0 {
                append_str(&mut out, ", ");
            }
            append_str(&mut out, p.name.as_str());
            append_str(&mut out, "==");
            match &p.version {
                Some(v) => {
                    append_str(&mut out, v.as_str());
                },
                None => {},
            }
            assert(out@ =~= members_text(ps, i + 1, tag@));
        }
        i += 1;
    }
    out
}

fn cuda_finding_of(packages: &Vec<PackageMetadata>) -> (r: Option<HealthDiagnostic>)
    ensures
        match r {
            Some(d) => cuda_findings(package_views(packages@)) == seq![d@],
            None => cuda_findings(package_views(packages@)) == Seq::<DiagnosticView>::empty(),
        },
        r.is_some() ==> (r.unwrap()@.severity() == HealthLevel::Warn) == (distinct_tags(
            package_views(packages@),
            packages.len() as int,
        ).len() >= 2),
{
    let tags = distinct_tags_of(packages);
    let ghost ps = package_views(packages@);
    let ghost ts = crate::text::views(tags@);
    if tags.len() == 0 {
        return None;
    }
    if tags.len() == 1 {
        assert(ts[0] == tags@[0]@);
        return Some(HealthDiagnostic::CudaConsistent { suffix: string_of(&tags[0]) });
    }
    let mut details = chars_of("Mixed CUDA versions detected:");
    let ghost head = details@;
    let mut cuda: usize = 0;
    let mut k: usize = 0;
    proof {
        assert(head + build_lines(ps, ts, 0) =~= head);
    }
    while k < tags.len()
        invariant
            k <= tags.len(),
            ps == package_views(packages@),
            ts == crate::text::views(tags@),
            details@ == head + build_lines(ps, ts, k as int),
            cuda == cuda_builds(ts, k as int),
            cuda <= k,
        decreases tags.len() - k,
    {
        assert(ts[k as int] == tags@[k as int]@);
        append_str(&mut details, "\n    +");
        append(&mut details, &tags[k]);
        append_str(&mut details, ": ");
        append(&mut details, &members_text_of(packages, &tags[k]));
        if has_prefix_str(&tags[k], "cu") {
            cuda += 1;
        }
        k += 1;
        assert(details@ =~= head + build_lines(ps, ts, k as int));
    }
    if cuda >= 2 {
        Some(HealthDiagnostic::CudaMismatch { details: string_of(&details) })
    } else {
        Some(HealthDiagnostic::CpuCudaConflict { details: string_of(&details) })
    }
}

proof fn lemma_message_lines_prefix(a: Seq<IssueView>, b: Seq<IssueView>, k: int)
    requires
        0 <= k <= a.len(),
        k <= b.len(),
        forall|i: int| 0 <= i < k ==> a[i] == b[i],
    ensures
        message_lines(a, k) == message_lines(b, k),
    decreases k,
{
    if k > 1 {
        lemma_message_lines_prefix(a, b, k - 1);
    }
}

/// Counts the problems that are missing packages (`missing` set) or that
/// are not, and writes their details: at most `cap` messages and a line
/// that counts the rest.
fn summarize(issues: &Vec<DepIssue>, missing: bool, cap: usize) -> (r: (usize, Vec<char>))
    ensures
        r.0 == selected(issue_views(issues@), issues.len() as int, missing).len(),
        r.1@ == details_text(
            selected(issue_views(issues@), issues.len() as int, missing),
            cap as nat,
        ),
{
    let mut count: usize = 0;
    let mut out: Vec<char> = Vec::new();
    let ghost iv = issue_views(issues@);
    let mut i: usize = 0;
    while i < issues.len()
        invariant
            i <= issues.len(),
            iv == issue_views(issues@),
            count == selected(iv, i as int, missing).len(),
            count <= i,
            out@ == message_lines(
                selected(iv, i as int, missing),
                if count <= cap {
                    count as int
                } else {
                    cap as int
                },
            ),
        decreases issues.len() - i,
    {
        assert(iv[i as int] == issues@[i as int]@);
        let issue = &issues[i];
        let is_missing = match issue {
            DepIssue::Missing { .. } => true,
            _ => false,
        };
        if is_missing == missing {
            let ghost sel = selected(iv, i as int, missing);
            let ghost next = selected(iv, i + 1, missing);
            assert(next == sel.push(issue@));
            if count < cap {
                if count > 0 {
                    append_str(&mut out, "\n");
                }
                append_str(&mut out, "    ");
                let m = issue.message();
                append_str(&mut out, m.as_str());
                proof {
                    lemma_message_lines_prefix(next, sel, count as int);
                    assert(out@ =~= message_lines(next, count + 1));
                }
            } else {
                proof {
                    lemma_message_lines_prefix(next, sel, cap as int);
                }
            }
            count += 1;
        }
        i += 1;
    }
    if count > cap {
        append_str(&mut out, "\n    ... and ");
        append(&mut out, &decimal_of((count - cap) as u64));
        append_str(&mut out, " more");
    }
    (count, out)
}

/// Runs the full health check on what was found in an environment.
///
/// `probe` says what is at `bin/python`, `python_version` what
/// `pyvenv.cfg` gives, `site_packages_found` whether `site-packages` was
/// located; `packages` is the result of the scan and `dep_issues` that
/// of the dependency check.
pub fn check_health(
    probe: PythonProbe,
    python_version: Option<String>,
    site_packages_found: bool,
    packages: &Vec<PackageMetadata>,
    dep_issues: &Vec<DepIssue>,
) -> (report: HealthReport)
    ensures
        diagnostic_views(report.items@) == health_findings(
            probe,
            opt_str_view(python_version),
            site_packages_found,
            package_views(packages@),
            issue_views(dep_issues@),
        ),
        report.overall_level() == quick_level(
            probe,
            site_packages_found,
            package_views(packages@),
            issue_views(dep_issues@),
        ),
{
    let ghost version = opt_str_view(python_version);
    let ghost ps = package_views(packages@);
    let ghost iv = issue_views(dep_issues@);
    let mut items: Vec<HealthDiagnostic> = Vec::new();
    let first = match &probe {
        PythonProbe::Missing => HealthDiagnostic::PythonMissing,
        PythonProbe::BrokenSymlink { target } => HealthDiagnostic::BrokenSymlink {
            target: target.clone(),
        },
        PythonProbe::Present => HealthDiagnostic::PythonOk {
            version: match python_version {
                Some(v) => v,
                None => string_of(&chars_of("unknown")),
            },
        },
    };
    assert(first@ == python_finding(probe, version));
    items.push(first);
    items.push(
        if site_packages_found {
            HealthDiagnostic::SitePackagesOk
        } else {
            HealthDiagnostic::SitePackagesMissing
        },
    );
    assert(diagnostic_views(items@) =~= seq![
        python_finding(probe, version),
        site_finding(site_packages_found),
    ]);
    if let Some(d) = cuda_finding_of(packages) {
        items.push(d);
    }
    assert(diagnostic_views(items@) =~= seq![
        python_finding(probe, version),
        site_finding(site_packages_found),
    ] + cuda_findings(ps));
    let ghost before = diagnostic_views(items@);
    if dep_issues.len() == 0 {
        items.push(HealthDiagnostic::DependenciesOk);
    } else {
        let (conflicts, conflict_details) = summarize(dep_issues, false, MAX_CONFLICT_DETAILS);
        if conflicts > 0 {
            items.push(
                HealthDiagnostic::VersionConflicts {
                    count: conflicts,
                    details: string_of(&conflict_details),
                },
            );
        }
        let (missing, missing_details) = summarize(dep_issues, true, MAX_MISSING_DETAILS);
        if missing > 0 {
            items.push(
                HealthDiagnostic::MissingDependencies {
                    count: missing,
                    details: string_of(&missing_details),
                },
            );
        }
    }
    assert(diagnostic_views(items@) =~= before + dependency_findings(iv));
    let report = HealthReport { items };
    proof {
        lemma_overall_of_views(report);
        lemma_quick_is_overall(probe, version, site_packages_found, ps, iv);
    }
    report
}

/// The quick health check: only the overall level, for lists of
/// environments. It is the level that the full check would report.
pub fn check_health_quick(
    probe: &PythonProbe,
    site_packages_found: bool,
    packages: &Vec<PackageMetadata>,
    dep_issues: &Vec<DepIssue>,
) -> (level: HealthLevel)
    ensures
        level == quick_level(
            *probe,
            site_packages_found,
            package_views(packages@),
            issue_views(dep_issues@),
        ),
{
    let present = match probe {
        PythonProbe::Present => true,
        _ => false,
    };
    if !present || !site_packages_found {
        return HealthLevel::Fail;
    }
    let tags = distinct_tags_of(packages);
    let ghost iv = issue_views(dep_issues@);
    let mut conflicts = false;
    let mut missing = false;
    let mut i: usize = 0;
    while i < dep_issues.len()
        invariant
            i <= dep_issues.len(),
            iv == issue_views(dep_issues@),
            conflicts == (selected(iv, i as int, false).len() > 0),
            missing == (selected(iv, i as int, true).len() > 0),
        decreases dep_issues.len() - i,
    {
        assert(iv[i as int] == dep_issues@[i as int]@);
        match &dep_issues[i] {
            DepIssue::Missing { .. } => {
                missing = true;
            },
            _ => {
                conflicts = true;
            },
        }
        i += 1;
    }
    if tags.len() >= 2 || conflicts {
        HealthLevel::Warn
    } else if missing {
        HealthLevel::Info
    } else {
        HealthLevel::Pass
    }
}

} // verus!
