//! The package scanner: one record for each installed distribution, made
//! from the files of its `.dist-info` directory.
//!
//! Reading the directory is the caller's part. The scanner takes what was
//! read, one `DistInfo` for each entry of `site-packages`, and never
//! fails: an entry that cannot be used is skipped.

use crate::metadata::{
    direct_url_of, direct_url_source, json_string, metadata_fields, metadata_fields_of,
    normalized, normalized_of, read_torch_version, says_editable, torch_version, DirectUrl,
    InstallSource,
};
use crate::text::{
    chars_of, ends_with, has_prefix_str, has_suffix, lines, lines_of, lowercase, lowercase_of,
    opt_str_view, opt_string_of, opt_view, same, same_str, starts_with, string_of, trim,
    trim_of, views,
};
use vstd::multiset::Multiset;
use vstd::prelude::*;

verus! {

/// What is known of one installed package.
#[derive(Debug, Clone)]
pub struct PackageMetadata {
    /// The normalized name.
    pub name: String,
    /// The version, as the metadata gives it.
    pub version: Option<String>,
    /// The tool that installed the package, such as `pip` or `uv`.
    pub installer: Option<String>,
    /// `pypi`, `git` or `local`.
    pub install_source: Option<String>,
    pub is_editable: bool,
    /// The git URL or the file path that the package came from.
    pub source_url: Option<String>,
    /// The commit, for an install from git.
    pub commit_id: Option<String>,
    /// The name under which the package is imported, where it differs
    /// from the package's name.
    pub import_name: Option<String>,
    /// When the package was installed, in seconds since the epoch.
    pub installed_at: Option<i64>,
}

impl Default for PackageMetadata {
    fn default() -> (r: Self)
        ensures
            r@ == (PackageView {
                name: Seq::empty(),
                version: None,
                installer: None,
                install_source: None,
                is_editable: false,
                source_url: None,
                commit_id: None,
                import_name: None,
                installed_at: None,
            }),
    {
        PackageMetadata {
            name: String::new(),
            version: None,
            installer: None,
            install_source: None,
            is_editable: false,
            source_url: None,
            commit_id: None,
            import_name: None,
            installed_at: None,
        }
    }
}

/// A package record, as characters.
pub struct PackageView {
    pub name: Seq<char>,
    pub version: Option<Seq<char>>,
    pub installer: Option<Seq<char>>,
    pub install_source: Option<Seq<char>>,
    pub is_editable: bool,
    pub source_url: Option<Seq<char>>,
    pub commit_id: Option<Seq<char>>,
    pub import_name: Option<Seq<char>>,
    pub installed_at: Option<i64>,
}

impl View for PackageMetadata {
    type V = PackageView;

    open spec fn view(&self) -> PackageView {
        PackageView {
            name: self.name@,
            version: opt_str_view(self.version),
            installer: opt_str_view(self.installer),
            install_source: opt_str_view(self.install_source),
            is_editable: self.is_editable,
            source_url: opt_str_view(self.source_url),
            commit_id: opt_str_view(self.commit_id),
            import_name: opt_str_view(self.import_name),
            installed_at: self.installed_at,
        }
    }
}

/// The views of a sequence of package records.
pub open spec fn package_views(ps: Seq<PackageMetadata>) -> Seq<PackageView> {
    Seq::new(ps.len(), |i: int| ps[i]@)
}

/// What was read of one entry of `site-packages`. A file that is missing
/// or cannot be read is `None`.
#[derive(Debug, Clone)]
pub struct DistInfo {
    /// The name of the entry.
    pub dir_name: String,
    /// The text of `METADATA`.
    pub metadata: Option<String>,
    /// The text of `INSTALLER`.
    pub installer: Option<String>,
    /// The text of `direct_url.json`.
    pub direct_url: Option<String>,
    /// The text of `top_level.txt`.
    pub top_level: Option<String>,
    /// When the directory was last modified, in seconds since the epoch.
    pub modified: Option<i64>,
}

/// Whether an entry of `site-packages` is the directory of a
/// distribution.
pub open spec fn is_dist_info(dir_name: Seq<char>) -> bool {
    ends_with(dir_name, ".dist-info"@)
}

/// Whether a line of `top_level.txt` from line `i` on names the package
/// itself: trimmed and in lowercase it is the package's normalized name.
pub open spec fn lists_itself(ls: Seq<Seq<char>>, name: Seq<char>, i: int) -> bool
    decreases ls.len() - i,
{
    if i < 0 || i >= ls.len() {
        false
    } else if trim(ls[i]).len() > 0 && lowercase(trim(ls[i])) == name {
        true
    } else {
        lists_itself(ls, name, i + 1)
    }
}

/// The first entry of `top_level.txt` from line `i` on that does not
/// start with an underscore.
pub open spec fn first_public_entry(ls: Seq<Seq<char>>, i: int) -> Option<Seq<char>>
    decreases ls.len() - i,
{
    if i < 0 || i >= ls.len() {
        None
    } else if trim(ls[i]).len() > 0 && trim(ls[i])[0] != '_' {
        Some(trim(ls[i]))
    } else {
        first_public_entry(ls, i + 1)
    }
}

/// The primary import name that a `top_level.txt` gives for the package
/// with the normalized name `name`: none where the file lists the
/// package's own name, else its first entry that does not start with an
/// underscore.
pub open spec fn import_name(top_level: Seq<char>, name: Seq<char>) -> Option<Seq<char>> {
    if lists_itself(lines(top_level), name, 0) {
        None
    } else {
        first_public_entry(lines(top_level), 0)
    }
}

/// The install source of the record of a distribution with the
/// `direct_url.json` `d`. It is what the file stands for, but an install
/// counts as one from git only where the file gives the commit; where it
/// does not, the install counts as local when its URL starts with
/// `file://` and as one from the index else.
pub open spec fn record_source(d: Seq<char>) -> InstallSource {
    if direct_url_source(d) == InstallSource::Git && json_string(d, "commit_id"@).is_none() {
        if json_string(d, "url"@) matches Some(u) && starts_with(u, "file://"@) {
            InstallSource::Local
        } else {
            InstallSource::Pypi
        }
    } else {
        direct_url_source(d)
    }
}

/// Whether the record of a distribution with the `direct_url.json` `d`
/// is that of an editable install: the file says so, and the install is
/// local or from git.
pub open spec fn record_editable(d: Seq<char>) -> bool {
    says_editable(d) && record_source(d) != InstallSource::Pypi
}

impl PackageView {
    /// What holds of every record that a scan makes: it has a name and a
    /// version; its install source is `pypi`, `git` or `local`; an
    /// install from git has its commit; and an editable install is local
    /// or from git.
    pub open spec fn consistent(self) -> bool {
        &&& self.name.len() > 0
        &&& self.version.is_some()
        &&& (self.install_source == Some("pypi"@) || self.install_source == Some("git"@)
            || self.install_source == Some("local"@))
        &&& (self.install_source == Some("git"@) ==> self.commit_id.is_some())
        &&& (self.is_editable ==> self.install_source == Some("git"@) || self.install_source
            == Some("local"@))
    }
}

/// The record of an entry is consistent.
pub proof fn lemma_record_consistent(info: DistInfo)
    requires
        record_of(info).is_some(),
    ensures
        record_of(info).unwrap().consistent(),
{
    reveal_strlit("pypi");
    reveal_strlit("git");
    reveal_strlit("local");
    let r = record_of(info).unwrap();
    assert("pypi"@.len() == 4 && "git"@.len() == 3 && "local"@.len() == 5);
    match info.direct_url {
        Some(d) => {
            let source = record_source(d@);
            assert(r.install_source == Some(source.name()));
            assert(r.commit_id == json_string(d@, "commit_id"@));
            assert(r.is_editable == record_editable(d@));
            match source {
                InstallSource::Pypi => {},
                InstallSource::Git => {},
                InstallSource::Local => {},
            }
        },
        None => {
            assert(r.install_source == Some(InstallSource::Pypi.name()));
            assert(!r.is_editable);
        },
    }
}

/// The record that an entry of `site-packages` yields.
///
/// An entry yields a record exactly when it is a `.dist-info` directory
/// whose `METADATA` was read and gives both a name, which is not empty,
/// and a version.
pub open spec fn record_of(info: DistInfo) -> Option<PackageView> {
    if !is_dist_info(info.dir_name@) || info.metadata.is_none() {
        None
    } else {
        match metadata_fields(info.metadata.unwrap()@) {
            (Some(name), Some(version)) => if normalized(name).len() == 0 {
                None
            } else {
                Some(
                PackageView {
                    name: normalized(name),
                    version: Some(version),
                    installer: match info.installer {
                        Some(t) => Some(trim(t@)),
                        None => None,
                    },
                    install_source: Some(
                        match info.direct_url {
                            Some(d) => record_source(d@).name(),
                            None => InstallSource::Pypi.name(),
                        },
                    ),
                    is_editable: match info.direct_url {
                        Some(d) => record_editable(d@),
                        None => false,
                    },
                    source_url: match info.direct_url {
                        Some(d) => json_string(d@, "url"@),
                        None => None,
                    },
                    commit_id: match info.direct_url {
                        Some(d) => json_string(d@, "commit_id"@),
                        None => None,
                    },
                    import_name: match info.top_level {
                        Some(t) => import_name(t@, normalized(name)),
                        None => None,
                    },
                    installed_at: info.modified,
                },
            )
            },
            _ => None,
        }
    }
}

/// Every record is consistent, and its name is in normal form.
pub proof fn lemma_records_named(entries: Seq<DistInfo>, n: int)
    requires
        0 <= n <= entries.len(),
    ensures
        forall|i: int|
            0 <= i < records(entries, n).len() ==> (#[trigger] records(entries, n)[i]).consistent()
                && (exists|raw: Seq<char>| records(entries, n)[i].name == normalized(raw)),
    decreases n,
{
    if n > 0 {
        lemma_records_named(entries, n - 1);
        let prev = records(entries, n - 1);
        let cur = records(entries, n);
        match record_of(entries[n - 1]) {
            Some(r) => {
                let raw = metadata_fields(entries[n - 1].metadata.unwrap()@).0.unwrap();
                assert(r.name == normalized(raw));
                lemma_record_consistent(entries[n - 1]);
                assert forall|i: int| 0 <= i < cur.len() implies (#[trigger] cur[i]).consistent()
                    && (exists|raw: Seq<char>| cur[i].name == normalized(raw)) by {
                    if i < prev.len() {
                        assert(cur[i] == prev[i]);
                    }
                }
            },
            None => {},
        }
    }
}

/// The version of `torch` comes from PyTorch's `version.py`: where that
/// file gives a version and the entries yield a record named `torch`,
/// the first such record of the scan has the version of the file,
/// whatever its `METADATA` says, and every other record is as its entry
/// yields it.
pub proof fn lemma_torch_version_from_file(entries: Seq<DistInfo>, version_py: Seq<char>)
    requires
        torch_version(version_py).is_some(),
    ensures
        scanned(entries, Some(version_py)).len() == records(entries, entries.len() as int).len(),
        forall|i: int|
            0 <= i < scanned(entries, Some(version_py)).len() ==> #[trigger] scanned(
                entries,
                Some(version_py),
            )[i] == (if i == torch_index(records(entries, entries.len() as int), 0) {
                PackageView {
                    version: torch_version(version_py),
                    ..records(entries, entries.len() as int)[i]
                }
            } else {
                records(entries, entries.len() as int)[i]
            }),
        torch_index(records(entries, entries.len() as int), 0) < records(
            entries,
            entries.len() as int,
        ).len() ==> scanned(entries, Some(version_py))[torch_index(
            records(entries, entries.len() as int),
            0,
        )].name == "torch"@,
{
    lemma_torch_index(records(entries, entries.len() as int), 0);
}

/// Every record of a scan is consistent: in particular an install from
/// git has its commit, and an editable install is local or from git.
pub proof fn lemma_scanned_consistent(entries: Seq<DistInfo>, version_py: Option<Seq<char>>)
    ensures
        forall|i: int|
            0 <= i < scanned(entries, version_py).len() ==> (#[trigger] scanned(
                entries,
                version_py,
            )[i]).consistent(),
{
    lemma_records_named(entries, entries.len() as int);
    let rs = records(entries, entries.len() as int);
    lemma_torch_index(rs, 0);
    assert(scanned(entries, version_py).len() == rs.len());
    assert forall|i: int| 0 <= i < scanned(entries, version_py).len() implies (#[trigger] scanned(
        entries,
        version_py,
    )[i]).consistent() by {
        assert(rs[i].consistent());
    }
}

/// The records that the first `n` entries yield, in the order of the
/// entries.
pub open spec fn records(entries: Seq<DistInfo>, n: int) -> Seq<PackageView>
    decreases n,
{
    if n <= 0 {
        Seq::empty()
    } else {
        match record_of(entries[n - 1]) {
            Some(r) => records(entries, n - 1).push(r),
            None => records(entries, n - 1),
        }
    }
}

/// The index of the first record from `i` on with the name `torch`, or
/// `rs.len()`.
pub open spec fn torch_index(rs: Seq<PackageView>, i: int) -> int
    decreases rs.len() - i,
{
    if i < 0 || i >= rs.len() {
        rs.len() as int
    } else if rs[i].name == "torch"@ {
        i
    } else {
        torch_index(rs, i + 1)
    }
}

/// The records with the version of the first `torch` record replaced by
/// the one that PyTorch's `version.py` gives, where there is such a
/// record and such a version.
pub open spec fn with_torch_version(rs: Seq<PackageView>, version_py: Option<Seq<char>>) -> Seq<
    PackageView,
> {
    let k = torch_index(rs, 0);
    if k < rs.len() && version_py.is_some() && torch_version(version_py.unwrap()).is_some() {
        rs.update(k, PackageView { version: torch_version(version_py.unwrap()), ..rs[k] })
    } else {
        rs
    }
}

/// The package records of an environment: the records of its entries,
/// with the version of `torch` taken from PyTorch's `version.py`.
pub open spec fn scanned(entries: Seq<DistInfo>, version_py: Option<Seq<char>>) -> Seq<
    PackageView,
> {
    with_torch_version(records(entries, entries.len() as int), version_py)
}

fn import_name_of(top_level: &Vec<char>, name: &Vec<char>) -> (r: Option<Vec<char>>)
    ensures
        opt_view(r) == import_name(top_level@, name@),
{
    let ls = lines_of(top_level);
    let mut i: usize = 0;
    while i < ls.len()
        invariant
            i <= ls.len(),
            views(ls@) == lines(top_level@),
            lists_itself(views(ls@), name@, 0) == lists_itself(views(ls@), name@, i as int),
        decreases ls.len() - i,
    {
        assert(views(ls@)[i as int] == ls@[i as int]@);
        let t = trim_of(&ls[i]);
        if t.len() > 0 && same(&lowercase_of(&t), name) {
            return None;
        }
        i += 1;
    }
    let mut j: usize = 0;
    while j < ls.len()
        invariant
            j <= ls.len(),
            views(ls@) == lines(top_level@),
            !lists_itself(views(ls@), name@, 0),
            first_public_entry(views(ls@), 0) == first_public_entry(views(ls@), j as int),
        decreases ls.len() - j,
    {
        assert(views(ls@)[j as int] == ls@[j as int]@);
        let t = trim_of(&ls[j]);
        if t.len() > 0 && t[0] != '_' {
            return Some(t);
        }
        j += 1;
    }
    None
}

fn is_pypi(source: InstallSource) -> (b: bool)
    ensures
        b == (source == InstallSource::Pypi),
{
    match source {
        InstallSource::Pypi => true,
        _ => false,
    }
}

fn record_source_of(du: &DirectUrl) -> (r: InstallSource)
    ensures
        r == (if du.source == InstallSource::Git && du.commit_id.is_none() {
            if opt_view(du.url) matches Some(u) && starts_with(u, "file://"@) {
                InstallSource::Local
            } else {
                InstallSource::Pypi
            }
        } else {
            du.source
        }),
{
    match du.source {
        InstallSource::Git => {
            if du.commit_id.is_some() {
                InstallSource::Git
            } else {
                let local = match &du.url {
                    Some(u) => has_prefix_str(u, "file://"),
                    None => false,
                };
                if local {
                    InstallSource::Local
                } else {
                    InstallSource::Pypi
                }
            }
        },
        InstallSource::Local => InstallSource::Local,
        InstallSource::Pypi => InstallSource::Pypi,
    }
}

/// Makes the record of one entry of `site-packages`, if the entry yields
/// one.
pub fn package_from(info: &DistInfo) -> (r: Option<PackageMetadata>)
    ensures
        match r {
            Some(p) => record_of(*info) == Some(p@) && p@.consistent(),
            None => record_of(*info).is_none(),
        },
{
    proof {
        if record_of(*info).is_some() {
            lemma_record_consistent(*info);
        }
    }
    if !has_suffix(&chars_of(info.dir_name.as_str()), &chars_of(".dist-info")) {
        return None;
    }
    let content = match &info.metadata {
        Some(m) => chars_of(m.as_str()),
        None => {
            return None;
        },
    };
    let (raw_name, version) = match metadata_fields_of(&content) {
        (Some(n), Some(v)) => (n, v),
        _ => {
            return None;
        },
    };
    let name = normalized_of(&raw_name);
    if name.len() == 0 {
        return None;
    }
    let installer = match &info.installer {
        Some(t) => Some(string_of(&trim_of(&chars_of(t.as_str())))),
        None => None,
    };
    let mut source = InstallSource::Pypi;
    let mut is_editable = false;
    let mut source_url: Option<String> = None;
    let mut commit_id: Option<String> = None;
    if let Some(d) = &info.direct_url {
        let du = direct_url_of(&chars_of(d.as_str()));
        source = record_source_of(&du);
        is_editable = du.editable && !is_pypi(source);
        source_url = opt_string_of(&du.url);
        commit_id = opt_string_of(&du.commit_id);
    }
    let import_name = match &info.top_level {
        Some(t) => opt_string_of(&import_name_of(&chars_of(t.as_str()), &name)),
        None => None,
    };
    Some(
        PackageMetadata {
            name: string_of(&name),
            version: Some(string_of(&version)),
            installer,
            install_source: Some(string_of(&chars_of(source.as_str()))),
            is_editable,
            source_url,
            commit_id,
            import_name,
            installed_at: info.modified,
        },
    )
}

/// The views of records with one more record are the views with one
/// more view.
pub proof fn lemma_package_views_push(v: Seq<PackageMetadata>, x: PackageMetadata)
    ensures
        package_views(v.push(x)) == package_views(v).push(x@),
{
    assert(package_views(v.push(x)) =~= package_views(v).push(x@));
}

/// Makes the package records of an environment from the entries of its
/// `site-packages` and the text of PyTorch's `version.py`, if that file
/// was read.
///
/// Every usable `.dist-info` entry yields one record, in the order of
/// the entries; two entries for one package yield two records.
pub fn get_packages(entries: &Vec<DistInfo>, version_py: Option<&str>) -> (r: Vec<PackageMetadata>)
    ensures
        package_views(r@) == scanned(
            entries@,
            match version_py {
                Some(t) => Some(t@),
                None => None,
            },
        ),
        forall|i: int| 0 <= i < r.len() ==> (#[trigger] r@[i])@.consistent(),
{
    let r = scan_entries(entries, version_py);
    proof {
        let py = match version_py {
            Some(t) => Some(t@),
            None => None,
        };
        lemma_scanned_consistent(entries@, py);
        assert forall|i: int| 0 <= i < r.len() implies (#[trigger] r@[i])@.consistent() by {
            assert(r@[i]@ == package_views(r@)[i]);
            assert(scanned(entries@, py)[i].consistent());
        }
    }
    r
}

fn scan_entries(entries: &Vec<DistInfo>, version_py: Option<&str>) -> (r: Vec<PackageMetadata>)
    ensures
        package_views(r@) == scanned(
            entries@,
            match version_py {
                Some(t) => Some(t@),
                None => None,
            },
        ),
{
    let mut r: Vec<PackageMetadata> = Vec::new();
    let mut i: usize = 0;
    proof {
        assert(package_views(r@) =~= records(entries@, 0));
    }
    while i < entries.len()
        invariant
            i <= entries.len(),
            package_views(r@) == records(entries@, i as int),
        decreases entries.len() - i,
    {
        if let Some(p) = package_from(&entries[i]) {
            proof {
                lemma_package_views_push(r@, p);
            }
            r.push(p);
        }
        i += 1;
    }
    let accurate = match version_py {
        Some(t) => match read_torch_version(t) {
            Some((v, _)) => Some(v),
            None => None,
        },
        None => None,
    };
    let ghost before = package_views(r@);
    let ghost py = match version_py {
        Some(t) => Some(t@),
        None => None,
    };
    let mut k: usize = 0;
    while k < r.len()
        invariant
            k <= r.len(),
            package_views(r@) == before,
            before == records(entries@, entries@.len() as int),
            py == (match version_py {
                Some(t) => Some(t@),
                None => None,
            }),
            opt_str_view(accurate) == (if py.is_some() {
                torch_version(py.unwrap())
            } else {
                None
            }),
            torch_index(before, 0) == torch_index(before, k as int),
        decreases r.len() - k,
    {
        assert(before[k as int] == r@[k as int]@);
        if same_str(&chars_of(r[k].name.as_str()), "torch") {
            if let Some(v) = accurate {
                let mut p = r[k].clone_record();
                p.version = Some(v);
                r.set(k, p);
                assert(package_views(r@) =~= before.update(
                    k as int,
                    PackageView { version: Some(v@), ..before[k as int] },
                ));
            }
            return r;
        }
        k += 1;
    }
    r
}

impl PackageMetadata {
    /// A copy of the record.
    pub fn clone_record(&self) -> (r: PackageMetadata)
        ensures
            r@ == self@,
    {
        PackageMetadata {
            name: self.name.clone(),
            version: clone_opt(&self.version),
            installer: clone_opt(&self.installer),
            install_source: clone_opt(&self.install_source),
            is_editable: self.is_editable,
            source_url: clone_opt(&self.source_url),
            commit_id: clone_opt(&self.commit_id),
            import_name: clone_opt(&self.import_name),
            installed_at: self.installed_at,
        }
    }
}

/// A copy of an optional string.
pub fn clone_opt(o: &Option<String>) -> (r: Option<String>)
    ensures
        opt_str_view(r) == opt_str_view(*o),
{
    match o {
        Some(s) => Some(s.clone()),
        None => None,
    }
}


/// Whether at most one record is a record of `torch`.
pub open spec fn at_most_one_torch(rs: Seq<PackageView>) -> bool {
    forall|i: int, j: int|
        0 <= i < rs.len() && 0 <= j < rs.len() && (#[trigger] rs[i]).name == "torch"@ && (
        #[trigger] rs[j]).name == "torch"@ ==> i == j
}

/// The multiset with the record, where there is one.
pub open spec fn with_record(m: Multiset<PackageView>, r: Option<PackageView>) -> Multiset<
    PackageView,
> {
    match r {
        Some(x) => m.insert(x),
        None => m,
    }
}

proof fn lemma_records_prefix(a: Seq<DistInfo>, b: Seq<DistInfo>, n: int)
    requires
        0 <= n <= a.len(),
        n <= b.len(),
        forall|i: int| 0 <= i < n ==> a[i] == b[i],
    ensures
        records(a, n) == records(b, n),
    decreases n,
{
    if n > 0 {
        lemma_records_prefix(a, b, n - 1);
    }
}

proof fn lemma_records_step(s: Seq<DistInfo>, n: int)
    requires
        0 < n <= s.len(),
    ensures
        records(s, n).to_multiset() == with_record(
            records(s, n - 1).to_multiset(),
            record_of(s[n - 1]),
        ),
{
    match record_of(s[n - 1]) {
        Some(r) => {
            vstd::seq_lib::to_multiset_build(records(s, n - 1), r);
        },
        None => {},
    }
}

proof fn lemma_with_record_commutes(
    m: Multiset<PackageView>,
    x: Option<PackageView>,
    y: Option<PackageView>,
)
    ensures
        with_record(with_record(m, x), y) == with_record(with_record(m, y), x),
{
    broadcast use vstd::multiset::group_multiset_axioms;

    assert(with_record(with_record(m, x), y) =~= with_record(with_record(m, y), x));
}

proof fn lemma_records_remove(s: Seq<DistInfo>, j: int)
    requires
        0 <= j < s.len(),
    ensures
        records(s, s.len() as int).to_multiset() == with_record(
            records(s.remove(j), s.len() - 1).to_multiset(),
            record_of(s[j]),
        ),
    decreases s.len(),
{
    let n = s.len() as int;
    let t = s.remove(j);
    lemma_records_step(s, n);
    if j == n - 1 {
        lemma_records_prefix(s, t, n - 1);
    } else {
        let front = s.drop_last();
        lemma_records_remove(front, j);
        lemma_records_prefix(s, front, n - 1);
        assert(front.remove(j) =~= t.drop_last());
        lemma_records_prefix(t, front.remove(j), n - 2);
        lemma_records_step(t, n - 1);
        assert(t[n - 2] == s[n - 1]);
        lemma_with_record_commutes(
            records(t, n - 2).to_multiset(),
            record_of(s[j]),
            record_of(s[n - 1]),
        );
    }
}

/// The records of two lists of entries that hold the same entries, in
/// whatever order, are the same records, in whatever order.
pub proof fn lemma_records_order_independent(a: Seq<DistInfo>, b: Seq<DistInfo>)
    requires
        a.to_multiset() == b.to_multiset(),
    ensures
        records(a, a.len() as int).to_multiset() == records(b, b.len() as int).to_multiset(),
    decreases a.len(),
{
    vstd::seq_lib::to_multiset_len(a);
    vstd::seq_lib::to_multiset_len(b);
    if a.len() > 0 {
        let n = a.len() as int;
        let x = a[n - 1];
        assert(a.contains(x));
        vstd::seq_lib::to_multiset_contains(a, x);
        vstd::seq_lib::to_multiset_contains(b, x);
        let j = choose|j: int| 0 <= j < b.len() && b[j] == x;
        let front = a.drop_last();
        let rest = b.remove(j);
        assert(front =~= a.remove(n - 1));
        vstd::seq_lib::to_multiset_remove(a, n - 1);
        vstd::seq_lib::to_multiset_remove(b, j);
        lemma_records_order_independent(front, rest);
        lemma_records_remove(b, j);
        lemma_records_step(a, n);
        lemma_records_prefix(a, front, n - 1);
    }
}

proof fn lemma_torch_index(rs: Seq<PackageView>, k: int)
    requires
        0 <= k <= rs.len(),
    ensures
        k <= torch_index(rs, k) <= rs.len(),
        torch_index(rs, k) < rs.len() ==> rs[torch_index(rs, k)].name == "torch"@,
        forall|j: int| k <= j < torch_index(rs, k) ==> (#[trigger] rs[j]).name != "torch"@,
    decreases rs.len() - k,
{
    if k < rs.len() && rs[k].name != "torch"@ {
        lemma_torch_index(rs, k + 1);
    }
}

proof fn lemma_with_torch_order_independent(
    ra: Seq<PackageView>,
    rb: Seq<PackageView>,
    version_py: Option<Seq<char>>,
)
    requires
        ra.to_multiset() == rb.to_multiset(),
        at_most_one_torch(ra),
    ensures
        with_torch_version(ra, version_py).to_multiset() == with_torch_version(
            rb,
            version_py,
        ).to_multiset(),
{
    lemma_torch_index(ra, 0);
    lemma_torch_index(rb, 0);
    let ka = torch_index(ra, 0);
    let kb = torch_index(rb, 0);
    if kb < rb.len() {
        let y = rb[kb];
        assert(rb.contains(y));
        vstd::seq_lib::to_multiset_contains(rb, y);
        vstd::seq_lib::to_multiset_contains(ra, y);
        let ia = choose|i: int| 0 <= i < ra.len() && ra[i] == y;
        assert(ra[ia].name == "torch"@);
        assert(ka <= ia);
        assert(ra[ka].name == "torch"@);
        assert(ia == ka);
    }
    if ka < ra.len() {
        let x = ra[ka];
        assert(ra.contains(x));
        vstd::seq_lib::to_multiset_contains(ra, x);
        vstd::seq_lib::to_multiset_contains(rb, x);
        let jb = choose|j: int| 0 <= j < rb.len() && rb[j] == x;
        assert(rb[jb].name == "torch"@);
        assert(kb <= jb);
    }
    if ka < ra.len() && version_py.is_some() && torch_version(version_py.unwrap()).is_some() {
        let x = ra[ka];
        let fixed = PackageView { version: torch_version(version_py.unwrap()), ..x };
        assert(rb[kb] == x);
        vstd::seq_lib::to_multiset_update(ra, ka, fixed);
        vstd::seq_lib::to_multiset_update(rb, kb, fixed);
    }
}

/// The records of an environment do not depend on the order in which
/// its entries are listed: two lists of the same entries give the same
/// records, in whatever order. This holds of an environment with at most
/// one `torch` distribution; of several, the first listed gets the
/// version of PyTorch's `version.py`.
pub proof fn lemma_scan_order_independent(
    a: Seq<DistInfo>,
    b: Seq<DistInfo>,
    version_py: Option<Seq<char>>,
)
    requires
        a.to_multiset() == b.to_multiset(),
        at_most_one_torch(records(a, a.len() as int)),
    ensures
        scanned(a, version_py).to_multiset() == scanned(b, version_py).to_multiset(),
{
    lemma_records_order_independent(a, b);
    lemma_with_torch_order_independent(
        records(a, a.len() as int),
        records(b, b.len() as int),
        version_py,
    );
}

} // verus!
