//! Core types: validated environment names and the health model.

use crate::text::{append, append_str, chars_of, decimal, decimal_of, string_of, trim, trim_of};
use crate::validation::{name_fault, name_fault_of, valid_name, NameFault};
use vstd::prelude::*;

verus! {

/// A validated environment name.
///
/// A value of this type always holds a name that `valid_name` accepts and
/// that has no white space around it.
#[derive(Debug, PartialEq, Eq, Hash, PartialOrd, Ord)]
pub struct EnvName(String);

/// Why a string is no environment name.
#[derive(Debug, Clone)]
pub struct EnvNameError {
    /// The string as it was given (for an empty name) or trimmed.
    pub input: String,
    /// The rule that was broken, in words.
    pub reason: &'static str,
}

/// The words for the rule `f`.
pub open spec fn reason_text(f: NameFault) -> Seq<char> {
    match f {
        NameFault::Empty => "cannot be empty"@,
        NameFault::TooLong => "too long (max 128 characters)"@,
        NameFault::PathChars => "cannot contain path characters"@,
        NameFault::Metachar => "contains shell metacharacters"@,
        NameFault::LeadingDot => "cannot start with a dot"@,
    }
}

fn reason_text_of(f: NameFault) -> (s: &'static str)
    ensures
        s@ == reason_text(f),
{
    match f {
        NameFault::Empty => "cannot be empty",
        NameFault::TooLong => "too long (max 128 characters)",
        NameFault::PathChars => "cannot contain path characters",
        NameFault::Metachar => "contains shell metacharacters",
        NameFault::LeadingDot => "cannot start with a dot",
    }
}

impl EnvNameError {
    /// The error as one line of text.
    pub open spec fn text(&self) -> Seq<char> {
        "Invalid environment name '"@ + self.input@ + "': "@ + self.reason@
    }

    /// The error as one line of text.
    pub fn to_string(&self) -> (s: String)
        ensures
            s@ == self.text(),
    {
        let mut out = chars_of("Invalid environment name '");
        append_str(&mut out, self.input.as_str());
        append_str(&mut out, "': ");
        append_str(&mut out, self.reason);
        string_of(&out)
    }
}

impl View for EnvName {
    type V = Seq<char>;

    closed spec fn view(&self) -> Seq<char> {
        self.0@
    }
}

impl EnvName {
    #[verifier::type_invariant]
    spec fn well_formed(&self) -> bool {
        name_fault(self.0@).is_none() && trim(self.0@) == self.0@
    }

    /// Makes an environment name out of a string. White space around the
    /// name is dropped; the rest must keep every rule of `valid_name`.
    pub fn new(name: &str) -> (r: Result<EnvName, EnvNameError>)
        ensures
            r.is_ok() <==> valid_name(name@),
            match r {
                Ok(n) => n@ == trim(name@) && name_fault(n@).is_none() && trim(n@) == n@,
                Err(e) => name_fault(trim(name@)) matches Some(f) && e.reason@ == reason_text(f)
                    && e.input@ == (if f == NameFault::Empty {
                    name@
                } else {
                    trim(name@)
                }),
            },
    {
        let raw = chars_of(name);
        let trimmed = trim_of(&raw);
        match name_fault_of(&trimmed) {
            None => {
                proof {
                    crate::text::lemma_trim_idempotent(raw@);
                }
                Ok(EnvName(string_of(&trimmed)))
            },
            Some(f) => {
                let input = if f == NameFault::Empty {
                    string_of(&raw)
                } else {
                    string_of(&trimmed)
                };
                Err(EnvNameError { input, reason: reason_text_of(f) })
            },
        }
    }

    /// The name as a string slice.
    pub fn as_str(&self) -> (s: &str)
        ensures
            s@ == self@,
            valid_name(s@),
            trim(s@) == s@,
    {
        proof {
            use_type_invariant(self);
        }
        self.0.as_str()
    }

    /// The name as an owned string.
    pub fn into_inner(self) -> (s: String)
        ensures
            s@ == self@,
            valid_name(s@),
    {
        proof {
            use_type_invariant(&self);
        }
        self.0
    }

    /// The name as an owned string.
    pub fn to_string(&self) -> (s: String)
        ensures
            s@ == self@,
    {
        self.0.clone()
    }
}

impl Clone for EnvName {
    fn clone(&self) -> (r: Self)
        ensures
            r@ == self@,
    {
        proof {
            use_type_invariant(self);
        }
        EnvName(self.0.clone())
    }
}

impl core::ops::Deref for EnvName {
    type Target = str;

    fn deref(&self) -> (s: &str)
        ensures
            s@ == self@,
    {
        self.0.as_str()
    }
}

impl core::str::FromStr for EnvName {
    type Err = EnvNameError;

    /// Reads an environment name as `EnvName::new` does.
    fn from_str(s: &str) -> (r: Result<EnvName, EnvNameError>)
        ensures
            r.is_ok() <==> valid_name(s@),
            match r {
                Ok(n) => n@ == trim(s@),
                Err(e) => name_fault(trim(s@)) matches Some(f) && e.reason@ == reason_text(f)
                    && e.input@ == (if f == NameFault::Empty {
                    s@
                } else {
                    trim(s@)
                }),
            },
    {
        EnvName::new(s)
    }
}


/// How bad a finding is. Ordered by severity: Pass < Info < Warn < Fail.
#[derive(Debug, Clone, Copy, PartialEq, Eq, PartialOrd, Ord, Structural)]
pub enum HealthLevel {
    /// Nothing is wrong.
    Pass,
    /// Minor issues, such as missing optional dependencies.
    Info,
    /// Issues to act on, such as version conflicts or mixed CUDA builds.
    Warn,
    /// The environment does not work.
    Fail,
}

impl Default for HealthLevel {
    fn default() -> (r: Self)
        ensures
            r == HealthLevel::Pass,
    {
        HealthLevel::Pass
    }
}

impl HealthLevel {
    /// The place of the level in the order of severity, from 0.
    pub open spec fn rank(self) -> nat {
        match self {
            HealthLevel::Pass => 0,
            HealthLevel::Info => 1,
            HealthLevel::Warn => 2,
            HealthLevel::Fail => 3,
        }
    }

    /// The more severe of two levels.
    pub open spec fn max(self, other: HealthLevel) -> HealthLevel {
        if other.rank() > self.rank() {
            other
        } else {
            self
        }
    }

    /// The icon that stands for the level.
    pub open spec fn icon_text(self) -> Seq<char> {
        match self {
            HealthLevel::Pass => "✓"@,
            HealthLevel::Info => "~"@,
            HealthLevel::Warn => "⚠"@,
            HealthLevel::Fail => "✗"@,
        }
    }

    /// The word that stands for the level.
    pub open spec fn label_text(self) -> Seq<char> {
        match self {
            HealthLevel::Pass => "OK"@,
            HealthLevel::Info => "MINOR"@,
            HealthLevel::Warn => "DRIFT"@,
            HealthLevel::Fail => "BROKEN"@,
        }
    }

    /// Exec counterpart of `rank`.
    pub fn severity(&self) -> (r: u8)
        ensures
            r == self.rank(),
    {
        match self {
            HealthLevel::Pass => 0,
            HealthLevel::Info => 1,
            HealthLevel::Warn => 2,
            HealthLevel::Fail => 3,
        }
    }

    /// The more severe of two levels.
    pub fn worst(self, other: HealthLevel) -> (r: HealthLevel)
        ensures
            r == self.max(other),
    {
        if other.severity() > self.severity() {
            other
        } else {
            self
        }
    }

    /// The icon for this severity level.
    pub fn icon(&self) -> (s: &'static str)
        ensures
            s@ == self.icon_text(),
    {
        match self {
            HealthLevel::Pass => "✓",
            HealthLevel::Info => "~",
            HealthLevel::Warn => "⚠",
            HealthLevel::Fail => "✗",
        }
    }

    /// The word for this severity level: `OK`, `MINOR`, `DRIFT` or `BROKEN`.
    pub fn label(&self) -> (s: &'static str)
        ensures
            s@ == self.label_text(),
    {
        match self {
            HealthLevel::Pass => "OK",
            HealthLevel::Info => "MINOR",
            HealthLevel::Warn => "DRIFT",
            HealthLevel::Fail => "BROKEN",
        }
    }

    /// The word for this severity level, as an owned string.
    pub fn to_string(&self) -> (s: String)
        ensures
            s@ == self.label_text(),
    {
        string_of(&chars_of(self.label()))
    }
}

/// What every finding can say of itself: a message for the user and a
/// severity.
pub trait Diagnostic {
    /// The message, as characters.
    spec fn message_text(&self) -> Seq<char>;

    /// The severity.
    spec fn severity_level(&self) -> HealthLevel;

    /// The message for the user.
    fn message(&self) -> (s: String)
        ensures
            s@ == self.message_text(),
    ;

    /// The severity of this finding.
    fn level(&self) -> (l: HealthLevel)
        ensures
            l == self.severity_level(),
    ;
}

/// One finding of a health check. Each variant carries exactly the data
/// that it needs.
#[derive(Debug, Clone)]
pub enum HealthDiagnostic {
    /// The Python binary is there and works.
    PythonOk { version: String },
    /// The Python binary is missing.
    PythonMissing,
    /// The Python binary is a symlink whose target does not resolve.
    BrokenSymlink { target: String },
    /// The site-packages directory is there.
    SitePackagesOk,
    /// The site-packages directory is missing.
    SitePackagesMissing,
    /// Every package with a CUDA build tag has the same one.
    CudaConsistent { suffix: String },
    /// Two or more distinct CUDA builds are installed.
    CudaMismatch { details: String },
    /// CPU and CUDA builds are mixed.
    CpuCudaConflict { details: String },
    /// Every dependency constraint is met.
    DependenciesOk,
    /// Dependencies are missing.
    MissingDependencies { count: usize, details: String },
    /// Installed versions conflict with what is required.
    VersionConflicts { count: usize, details: String },
}

/// `s` when `count` is not 1, nothing when it is.
pub open spec fn plural(count: nat) -> Seq<char> {
    if count == 1 {
        ""@
    } else {
        "s"@
    }
}

/// A finding of a health check, as characters.
pub enum DiagnosticView {
    PythonOk { version: Seq<char> },
    PythonMissing,
    BrokenSymlink { target: Seq<char> },
    SitePackagesOk,
    SitePackagesMissing,
    CudaConsistent { suffix: Seq<char> },
    CudaMismatch { details: Seq<char> },
    CpuCudaConflict { details: Seq<char> },
    DependenciesOk,
    MissingDependencies { count: usize, details: Seq<char> },
    VersionConflicts { count: usize, details: Seq<char> },
}

impl View for HealthDiagnostic {
    type V = DiagnosticView;

    open spec fn view(&self) -> DiagnosticView {
        match self {
            HealthDiagnostic::PythonOk { version } => DiagnosticView::PythonOk {
                version: version@,
            },
            HealthDiagnostic::PythonMissing => DiagnosticView::PythonMissing,
            HealthDiagnostic::BrokenSymlink { target } => DiagnosticView::BrokenSymlink {
                target: target@,
            },
            HealthDiagnostic::SitePackagesOk => DiagnosticView::SitePackagesOk,
            HealthDiagnostic::SitePackagesMissing => DiagnosticView::SitePackagesMissing,
            HealthDiagnostic::CudaConsistent { suffix } => DiagnosticView::CudaConsistent {
                suffix: suffix@,
            },
            HealthDiagnostic::CudaMismatch { details } => DiagnosticView::CudaMismatch {
                details: details@,
            },
            HealthDiagnostic::CpuCudaConflict { details } => DiagnosticView::CpuCudaConflict {
                details: details@,
            },
            HealthDiagnostic::DependenciesOk => DiagnosticView::DependenciesOk,
            HealthDiagnostic::MissingDependencies { count, details } => {
                DiagnosticView::MissingDependencies { count: *count, details: details@ }
            },
            HealthDiagnostic::VersionConflicts { count, details } => {
                DiagnosticView::VersionConflicts { count: *count, details: details@ }
            },
        }
    }
}

impl DiagnosticView {
    /// The message of the finding.
    pub open spec fn text(self) -> Seq<char> {
        match self {
            DiagnosticView::PythonOk { version } => "Python "@ + version + " OK"@,
            DiagnosticView::PythonMissing => "Python binary missing or not found"@,
            DiagnosticView::BrokenSymlink { target } => "Python symlink broken → "@ + target,
            DiagnosticView::SitePackagesOk => "site-packages OK"@,
            DiagnosticView::SitePackagesMissing => "site-packages directory missing"@,
            DiagnosticView::CudaConsistent { suffix } => "CUDA consistency OK (all packages use +"@
                + suffix + ")"@,
            DiagnosticView::CudaMismatch { details } => details,
            DiagnosticView::CpuCudaConflict { details } => details,
            DiagnosticView::DependenciesOk => "Dependencies OK (all Requires-Dist satisfied)"@,
            DiagnosticView::MissingDependencies { count, details } => decimal(count as nat)
                + " missing dep"@ + plural(count as nat) + ":\n"@ + details,
            DiagnosticView::VersionConflicts { count, details } => decimal(count as nat)
                + " version conflict"@ + plural(count as nat) + ":\n"@ + details,
        }
    }

    /// The severity of the finding.
    pub open spec fn severity(self) -> HealthLevel {
        match self {
            DiagnosticView::PythonOk { .. }
            | DiagnosticView::SitePackagesOk
            | DiagnosticView::CudaConsistent { .. }
            | DiagnosticView::DependenciesOk => HealthLevel::Pass,
            DiagnosticView::MissingDependencies { .. } => HealthLevel::Info,
            DiagnosticView::CudaMismatch { .. }
            | DiagnosticView::CpuCudaConflict { .. }
            | DiagnosticView::VersionConflicts { .. } => HealthLevel::Warn,
            DiagnosticView::PythonMissing
            | DiagnosticView::BrokenSymlink { .. }
            | DiagnosticView::SitePackagesMissing => HealthLevel::Fail,
        }
    }
}

impl Diagnostic for HealthDiagnostic {
    open spec fn message_text(&self) -> Seq<char> {
        self@.text()
    }

    open spec fn severity_level(&self) -> HealthLevel {
        self@.severity()
    }

    fn message(&self) -> (s: String) {
        let mut out: Vec<char> = Vec::new();
        match self {
            HealthDiagnostic::PythonOk { version } => {
                append_str(&mut out, "Python ");
                append_str(&mut out, version.as_str());
                append_str(&mut out, " OK");
            },
            HealthDiagnostic::PythonMissing => {
                append_str(&mut out, "Python binary missing or not found");
            },
            HealthDiagnostic::BrokenSymlink { target } => {
                append_str(&mut out, "Python symlink broken → ");
                append_str(&mut out, target.as_str());
            },
            HealthDiagnostic::SitePackagesOk => {
                append_str(&mut out, "site-packages OK");
            },
            HealthDiagnostic::SitePackagesMissing => {
                append_str(&mut out, "site-packages directory missing");
            },
            HealthDiagnostic::CudaConsistent { suffix } => {
                append_str(&mut out, "CUDA consistency OK (all packages use +");
                append_str(&mut out, suffix.as_str());
                append_str(&mut out, ")");
            },
            HealthDiagnostic::CudaMismatch { details } => {
                append_str(&mut out, details.as_str());
            },
            HealthDiagnostic::CpuCudaConflict { details } => {
                append_str(&mut out, details.as_str());
            },
            HealthDiagnostic::DependenciesOk => {
                append_str(&mut out, "Dependencies OK (all Requires-Dist satisfied)");
            },
            HealthDiagnostic::MissingDependencies { count, details } => {
                append(&mut out, &decimal_of(*count as u64));
                append_str(&mut out, " missing dep");
                append_str(&mut out, plural_of(*count));
                append_str(&mut out, ":\n");
                append_str(&mut out, details.as_str());
            },
            HealthDiagnostic::VersionConflicts { count, details } => {
                append(&mut out, &decimal_of(*count as u64));
                append_str(&mut out, " version conflict");
                append_str(&mut out, plural_of(*count));
                append_str(&mut out, ":\n");
                append_str(&mut out, details.as_str());
            },
        }
        assert(out@ =~= self.message_text());
        string_of(&out)
    }

    fn level(&self) -> (l: HealthLevel) {
        match self {
            HealthDiagnostic::PythonOk { .. }
            | HealthDiagnostic::SitePackagesOk
            | HealthDiagnostic::CudaConsistent { .. }
            | HealthDiagnostic::DependenciesOk => HealthLevel::Pass,
            HealthDiagnostic::MissingDependencies { .. } => HealthLevel::Info,
            HealthDiagnostic::CudaMismatch { .. }
            | HealthDiagnostic::CpuCudaConflict { .. }
            | HealthDiagnostic::VersionConflicts { .. } => HealthLevel::Warn,
            HealthDiagnostic::PythonMissing
            | HealthDiagnostic::BrokenSymlink { .. }
            | HealthDiagnostic::SitePackagesMissing => HealthLevel::Fail,
        }
    }
}

/// Exec counterpart of `plural`.
pub fn plural_of(count: usize) -> (s: &'static str)
    ensures
        s@ == plural(count as nat),
{
    if count == 1 {
        ""
    } else {
        "s"
    }
}

/// The findings of one health check, in the order in which they were made.
#[derive(Debug, Clone)]
pub struct HealthReport {
    pub items: Vec<HealthDiagnostic>,
}

/// The most severe level among the first `n` findings; `Pass` for none.
pub open spec fn worst_level(items: Seq<HealthDiagnostic>, n: int) -> HealthLevel
    decreases n,
{
    if n <= 0 {
        HealthLevel::Pass
    } else {
        worst_level(items, n - 1).max(items[n - 1].severity_level())
    }
}

/// One line of the report's text for each of the first `n` findings.
pub open spec fn item_lines(items: Seq<HealthDiagnostic>, n: int) -> Seq<char>
    decreases n,
{
    if n <= 0 {
        Seq::empty()
    } else {
        item_lines(items, n - 1) + items[n - 1].severity_level().icon_text() + " "@ + items[n
            - 1].message_text() + "\n"@
    }
}

impl Default for HealthReport {
    fn default() -> (r: Self)
        ensures
            r.items@.len() == 0,
    {
        HealthReport { items: Vec::new() }
    }
}

impl HealthReport {
    /// The overall severity of the report: the most severe level among
    /// its findings, `Pass` when it has none.
    pub open spec fn overall_level(&self) -> HealthLevel {
        worst_level(self.items@, self.items@.len() as int)
    }

    /// The report as plain text.
    pub open spec fn text(&self, env_name: Seq<char>) -> Seq<char> {
        "Health: "@ + env_name + "\n"@ + item_lines(self.items@, self.items@.len() as int)
            + "\nOverall: "@ + self.overall_level().label_text()
    }

    /// Adds a finding at the end of the report.
    pub fn push(&mut self, diagnostic: HealthDiagnostic)
        ensures
            final(self).items@ == old(self).items@.push(diagnostic),
            final(self).overall_level() == old(self).overall_level().max(
                diagnostic.severity_level(),
            ),
    {
        proof {
            lemma_worst_level_prefix(
                self.items@.push(diagnostic),
                self.items@,
                self.items@.len() as int,
            );
        }
        self.items.push(diagnostic);
    }

    /// Overall status: Fail > Warn > Info > Pass.
    pub fn overall(&self) -> (l: HealthLevel)
        ensures
            l == self.overall_level(),
    {
        let mut l = HealthLevel::Pass;
        let mut i: usize = 0;
        while i < self.items.len()
            invariant
                i <= self.items.len(),
                l == worst_level(self.items@, i as int),
            decreases self.items.len() - i,
        {
            l = l.worst(self.items[i].level());
            i += 1;
        }
        l
    }

    /// The report as plain text: a heading with the environment's name, a
    /// line with icon and message for each finding, and the overall level.
    pub fn to_text(&self, env_name: &str) -> (s: String)
        ensures
            s@ == self.text(env_name@),
    {
        let mut out = chars_of("Health: ");
        append_str(&mut out, env_name);
        append_str(&mut out, "\n");
        let ghost head = out@;
        let mut i: usize = 0;
        while i < self.items.len()
            invariant
                i <= self.items.len(),
                out@ == head + item_lines(self.items@, i as int),
            decreases self.items.len() - i,
        {
            let item = &self.items[i];
            append_str(&mut out, item.level().icon());
            append_str(&mut out, " ");
            let m = item.message();
            append_str(&mut out, m.as_str());
            append_str(&mut out, "\n");
            i += 1;
            assert(out@ =~= head + item_lines(self.items@, i as int));
        }
        append_str(&mut out, "\nOverall: ");
        append_str(&mut out, self.overall().label());
        assert(out@ =~= self.text(env_name@));
        string_of(&out)
    }
}

/// The most severe level among the first `n` findings depends on those
/// findings only.
pub proof fn lemma_worst_level_prefix(
    a: Seq<HealthDiagnostic>,
    b: Seq<HealthDiagnostic>,
    n: int,
)
    requires
        0 <= n <= a.len(),
        n <= b.len(),
        forall|i: int| 0 <= i < n ==> a[i] == b[i],
    ensures
        worst_level(a, n) == worst_level(b, n),
    decreases n,
{
    if n > 0 {
        lemma_worst_level_prefix(a, b, n - 1);
    }
}

/// The overall level is the maximum of the findings' levels: no finding
/// is more severe than it, and it is the level of some finding, or
/// `Pass` for a report without findings.
pub proof fn lemma_overall_is_maximum(report: HealthReport)
    ensures
        forall|i: int|
            0 <= i < report.items@.len() ==> (#[trigger] report.items@[i]).severity_level().rank()
                <= report.overall_level().rank(),
        report.items@.len() == 0 ==> report.overall_level() == HealthLevel::Pass,
        report.items@.len() > 0 ==> exists|i: int|
            0 <= i < report.items@.len() && (#[trigger] report.items@[i]).severity_level()
                == report.overall_level(),
{
    lemma_worst_level_bounds(report.items@, report.items@.len() as int);
}

proof fn lemma_worst_level_bounds(items: Seq<HealthDiagnostic>, n: int)
    requires
        0 <= n <= items.len(),
    ensures
        forall|i: int|
            0 <= i < n ==> (#[trigger] items[i]).severity_level().rank() <= worst_level(
                items,
                n,
            ).rank(),
        n == 0 ==> worst_level(items, n) == HealthLevel::Pass,
        n > 0 ==> exists|i: int|
            0 <= i < n && (#[trigger] items[i]).severity_level() == worst_level(items, n),
    decreases n,
{
    if n > 0 {
        lemma_worst_level_bounds(items, n - 1);
        let prev = worst_level(items, n - 1);
        let last = items[n - 1].severity_level();
        if last.rank() > prev.rank() || n == 1 {
            assert(last.rank() >= prev.rank());
            if last.rank() > prev.rank() {
                assert(items[n - 1].severity_level() == worst_level(items, n));
            } else {
                assert(prev == HealthLevel::Pass);
                assert(last == HealthLevel::Pass);
                assert(items[n - 1].severity_level() == worst_level(items, n));
            }
        } else {
            let k = choose|i: int|
                0 <= i < n - 1 && (#[trigger] items[i]).severity_level() == prev;
            assert(items[k].severity_level() == worst_level(items, n));
        }
    }
}

} // verus!
