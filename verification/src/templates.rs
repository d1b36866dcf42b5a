//! Templates: named lists of packages, installed in steps, and the
//! session in which a template is recorded.

use crate::order::{key_views, sort_by_key, sorted_order, KeyView, SortKey};
use crate::registry::{lemma_filter_one, lemma_filter_pair};
use crate::text::{chars_of, opt_str_view, same, string_of};
use vstd::prelude::*;

verus! {

/// A template.
#[derive(Debug, Clone)]
pub struct Template {
    pub id: u64,
    pub name: String,
    pub version: String,
    pub python_version: String,
    /// When the template was last created, in seconds since the epoch.
    pub updated_at: i64,
}

/// A package of a template.
#[derive(Debug, Clone)]
pub struct TemplatePackage {
    pub template_id: u64,
    pub package_name: String,
    pub version: String,
    pub is_pinned: bool,
    pub install_type: String,
    /// Arguments for the installer, such as `--index-url ...`.
    pub install_args: Option<String>,
    /// The step in which the package is installed.
    pub step: i64,
}

/// The session in which a template is recorded.
#[derive(Debug, Clone)]
pub struct Session {
    pub template_id: u64,
    /// The path of the environment in which the packages are tried.
    pub env_path: String,
}

/// A template, as characters.
pub struct TemplateView {
    pub id: u64,
    pub name: Seq<char>,
    pub version: Seq<char>,
    pub python_version: Seq<char>,
    pub updated_at: i64,
}

/// A package of a template, as characters.
pub struct TemplatePackageView {
    pub template_id: u64,
    pub package_name: Seq<char>,
    pub version: Seq<char>,
    pub is_pinned: bool,
    pub install_type: Seq<char>,
    pub install_args: Option<Seq<char>>,
    pub step: i64,
}

impl View for Template {
    type V = TemplateView;

    open spec fn view(&self) -> TemplateView {
        TemplateView {
            id: self.id,
            name: self.name@,
            version: self.version@,
            python_version: self.python_version@,
            updated_at: self.updated_at,
        }
    }
}

impl View for TemplatePackage {
    type V = TemplatePackageView;

    open spec fn view(&self) -> TemplatePackageView {
        TemplatePackageView {
            template_id: self.template_id,
            package_name: self.package_name@,
            version: self.version@,
            is_pinned: self.is_pinned,
            install_type: self.install_type@,
            install_args: opt_str_view(self.install_args),
            step: self.step,
        }
    }
}

impl Template {
    /// A copy of the template.
    pub fn duplicate(&self) -> (r: Template)
        ensures
            r@ == self@,
    {
        Template {
            id: self.id,
            name: self.name.clone(),
            version: self.version.clone(),
            python_version: self.python_version.clone(),
            updated_at: self.updated_at,
        }
    }
}

impl TemplatePackage {
    /// A copy of the package.
    pub fn duplicate(&self) -> (r: TemplatePackage)
        ensures
            r@ == self@,
    {
        TemplatePackage {
            template_id: self.template_id,
            package_name: self.package_name.clone(),
            version: self.version.clone(),
            is_pinned: self.is_pinned,
            install_type: self.install_type.clone(),
            install_args: match &self.install_args {
                Some(a) => Some(a.clone()),
                None => None,
            },
            step: self.step,
        }
    }
}

/// The views of a sequence of templates.
pub open spec fn template_views(v: Seq<Template>) -> Seq<TemplateView> {
    Seq::new(v.len(), |i: int| v[i]@)
}

/// The views of a sequence of packages.
pub open spec fn template_package_views(v: Seq<TemplatePackage>) -> Seq<TemplatePackageView> {
    Seq::new(v.len(), |i: int| v[i]@)
}

/// The content of a template store.
pub struct StoreView {
    pub templates: Seq<TemplateView>,
    pub packages: Seq<TemplatePackageView>,
    /// The template that is recorded and the path of the environment of
    /// the session.
    pub session: Option<(u64, Seq<char>)>,
    pub next_id: u64,
}

/// Why an operation on the template store is refused.
#[derive(Debug, Clone, Copy, PartialEq, Eq, Structural)]
pub enum TemplateError {
    /// There is no such template.
    NotFound,
    /// No identifier is left for a new template.
    Full,
}

/// The index of the template with the name `name` and, where one is
/// given, the version `version` among the templates from `k` on, or the
/// number of templates.
pub open spec fn template_index(
    ts: Seq<TemplateView>,
    name: Seq<char>,
    version: Option<Seq<char>>,
    k: int,
) -> int
    decreases ts.len() - k,
{
    if k < 0 || k >= ts.len() {
        ts.len() as int
    } else if ts[k].name == name && (version matches Some(v) ==> ts[k].version == v) {
        k
    } else {
        template_index(ts, name, version, k + 1)
    }
}

proof fn lemma_template_index(
    ts: Seq<TemplateView>,
    name: Seq<char>,
    version: Option<Seq<char>>,
    k: int,
)
    requires
        0 <= k <= ts.len(),
    ensures
        k <= template_index(ts, name, version, k) <= ts.len(),
        template_index(ts, name, version, k) < ts.len() ==> ts[template_index(
            ts,
            name,
            version,
            k,
        )].name == name && (version matches Some(v) ==> ts[template_index(
            ts,
            name,
            version,
            k,
        )].version == v),
        forall|j: int|
            k <= j < template_index(ts, name, version, k) ==> !((#[trigger] ts[j]).name == name && (
            version matches Some(v) ==> ts[j].version == v)),
    decreases ts.len() - k,
{
    if k < ts.len() && !(ts[k].name == name && (version matches Some(v) ==> ts[k].version == v)) {
        lemma_template_index(ts, name, version, k + 1);
    }
}

/// The packages of other templates than `id`.
pub open spec fn of_other_template(id: u64) -> spec_fn(TemplatePackageView) -> bool {
    |p: TemplatePackageView| p.template_id != id
}

/// The packages other than the package `name` of the template `id`.
pub open spec fn other_package(id: u64, name: Seq<char>) -> spec_fn(TemplatePackageView) -> bool {
    |p: TemplatePackageView| !(p.template_id == id && p.package_name == name)
}

/// The packages of the template `id`.
pub open spec fn of_template(id: u64) -> spec_fn(TemplatePackageView) -> bool {
    |p: TemplatePackageView| p.template_id == id
}

/// The steps of packages as sort keys.
pub open spec fn step_keys(ps: Seq<TemplatePackageView>) -> Seq<KeyView> {
    Seq::new(ps.len(), |i: int| KeyView::Number(ps[i].step))
}

/// The packages of the template `id`, in the order of their steps.
pub open spec fn packages_in_steps(ps: Seq<TemplatePackageView>, id: u64) -> Seq<
    TemplatePackageView,
> {
    let mine = ps.filter(of_template(id));
    let order = sorted_order(step_keys(mine), mine.len() as int, false);
    Seq::new(order.len(), |i: int| mine[order[i] as int])
}

impl StoreView {
    /// Whether a template with the identifier `id` is there.
    pub open spec fn has_template(self, id: u64) -> bool {
        exists|i: int| 0 <= i < self.templates.len() && (#[trigger] self.templates[i]).id == id
    }

    /// Whether the content keeps the rules of the store: identifiers of
    /// templates are unique, and so are pairs of name and version; a
    /// package and the session belong to a template that is there; a
    /// template has one package of a name.
    pub open spec fn wf(self) -> bool {
        &&& forall|i: int, j: int|
            0 <= i < j < self.templates.len() ==> (#[trigger] self.templates[i]).id != (
            #[trigger] self.templates[j]).id && !(self.templates[i].name
                == self.templates[j].name && self.templates[i].version
                == self.templates[j].version)
        &&& forall|i: int|
            0 <= i < self.templates.len() ==> (#[trigger] self.templates[i]).id < self.next_id
        &&& forall|i: int|
            0 <= i < self.packages.len() ==> self.has_template(
                (#[trigger] self.packages[i]).template_id,
            )
        &&& forall|i: int, j: int|
            0 <= i < j < self.packages.len() ==> !((#[trigger] self.packages[i]).template_id == (
            #[trigger] self.packages[j]).template_id && self.packages[i].package_name
                == self.packages[j].package_name)
        &&& self.session matches Some(s) ==> self.has_template(s.0)
    }

    /// The content with the package `p`: it takes the place of a package
    /// of the same template and name, and stands last.
    pub open spec fn with_package(self, p: TemplatePackageView) -> StoreView {
        StoreView {
            packages: self.packages.filter(other_package(p.template_id, p.package_name)).push(p),
            ..self
        }
    }

    /// The content without the package `name` of the template `id`.
    pub open spec fn without_package(self, id: u64, name: Seq<char>) -> StoreView {
        StoreView { packages: self.packages.filter(other_package(id, name)), ..self }
    }

    /// The content without the first template with the name `name`, its
    /// packages and its session.
    pub open spec fn without_template(self, name: Seq<char>) -> StoreView {
        let i = template_index(self.templates, name, None, 0);
        if i < self.templates.len() {
            StoreView {
                templates: self.templates.remove(i),
                packages: self.packages.filter(of_other_template(self.templates[i].id)),
                session: match self.session {
                    Some(s) => if s.0 == self.templates[i].id {
                        None
                    } else {
                        Some(s)
                    },
                    None => None,
                },
                ..self
            }
        } else {
            self
        }
    }
}

/// A sequence of which every element is kept is its own filtered
/// sequence.
pub proof fn lemma_filter_all_kept<A>(s: Seq<A>, keep: spec_fn(A) -> bool)
    requires
        forall|i: int| 0 <= i < s.len() ==> keep(#[trigger] s[i]),
    ensures
        s.filter(keep) == s,
    decreases s.len(),
{
    reveal(Seq::filter);
    if s.len() > 0 {
        let rest = s.drop_last();
        assert forall|i: int| 0 <= i < rest.len() implies keep(#[trigger] rest[i]) by {
            assert(rest[i] == s[i]);
        }
        lemma_filter_all_kept(rest, keep);
        assert(keep(s[s.len() - 1]));
        assert(rest.push(s.last()) =~= s);
    }
}

proof fn lemma_has_template_same(v: StoreView, r: StoreView, id: u64)
    requires
        r.templates == v.templates,
        v.has_template(id),
    ensures
        r.has_template(id),
{
    let k = choose|k: int| 0 <= k < v.templates.len() && (#[trigger] v.templates[k]).id == id;
    assert(r.templates[k].id == id);
}

/// Adding a package keeps the rules of the store. The template has the
/// package afterwards, once, and adding it again changes nothing.
pub proof fn lemma_with_package(v: StoreView, p: TemplatePackageView)
    requires
        v.wf(),
        v.has_template(p.template_id),
    ensures
        v.with_package(p).wf(),
        v.with_package(p).packages.last() == p,
        forall|k: int|
            0 <= k < v.with_package(p).packages.len() - 1 ==> !((#[trigger] v.with_package(
                p,
            ).packages[k]).template_id == p.template_id && v.with_package(
                p,
            ).packages[k].package_name == p.package_name),
        v.with_package(p).with_package(p) == v.with_package(p),
{
    let keep = other_package(p.template_id, p.package_name);
    let f = v.packages.filter(keep);
    let r = v.with_package(p);
    assert forall|k: int| 0 <= k < f.len() implies keep(#[trigger] f[k]) && v.has_template(
        f[k].template_id,
    ) by {
        let k0 = lemma_filter_one(v.packages, keep, k);
        assert(v.has_template(v.packages[k0].template_id));
    }
    assert forall|k: int| 0 <= k < r.packages.len() implies r.has_template(
        (#[trigger] r.packages[k]).template_id,
    ) by {
        if k < f.len() {
            assert(r.packages[k] == f[k]);
            lemma_has_template_same(v, r, f[k].template_id);
        } else {
            lemma_has_template_same(v, r, p.template_id);
        }
    }
    assert forall|a: int, b: int| 0 <= a < b < r.packages.len() implies !((
    #[trigger] r.packages[a]).template_id == (#[trigger] r.packages[b]).template_id
        && r.packages[a].package_name == r.packages[b].package_name) by {
        if b < f.len() {
            let w = lemma_filter_pair(v.packages, keep, a, b);
            assert(!(v.packages[w.0].template_id == v.packages[w.1].template_id
                && v.packages[w.0].package_name == v.packages[w.1].package_name));
        } else {
            assert(keep(f[a]));
        }
    }
    if v.session.is_some() {
        lemma_has_template_same(v, r, v.session.unwrap().0);
    }
    f.lemma_filter_push(p, keep);
    lemma_filter_all_kept(f, keep);
    assert(r.packages.filter(keep) == f);
}

/// The template store.
pub struct TemplateStore {
    templates: Vec<Template>,
    packages: Vec<TemplatePackage>,
    session: Option<Session>,
    next_id: u64,
}

impl View for TemplateStore {
    type V = StoreView;

    closed spec fn view(&self) -> StoreView {
        StoreView {
            templates: template_views(self.templates@),
            packages: template_package_views(self.packages@),
            session: match self.session {
                Some(s) => Some((s.template_id, s.env_path@)),
                None => None,
            },
            next_id: self.next_id,
        }
    }
}

fn str_eq(a: &str, b: &str) -> (r: bool)
    ensures
        r == (a@ == b@),
{
    same(&chars_of(a), &chars_of(b))
}

fn copy_str(a: &str) -> (r: String)
    ensures
        r@ == a@,
{
    string_of(&chars_of(a))
}

fn filter_packages(ps: &Vec<TemplatePackage>, id: u64, name: Option<&str>, keep_others: bool) -> (out:
    Vec<TemplatePackage>)
    ensures
        template_package_views(out@) == template_package_views(ps@).filter(
            if !keep_others {
                of_template(id)
            } else {
                match name {
                    Some(n) => other_package(id, n@),
                    None => of_other_template(id),
                }
            },
        ),
{
    let mut out: Vec<TemplatePackage> = Vec::new();
    let ghost pv = template_package_views(ps@);
    let ghost keep = if !keep_others {
        of_template(id)
    } else {
        match name {
            Some(n) => other_package(id, n@),
            None => of_other_template(id),
        }
    };
    let mut i: usize = 0;
    proof {
        reveal(Seq::filter);
        assert(pv.take(0).filter(keep) =~= Seq::<TemplatePackageView>::empty());
        assert(template_package_views(out@) =~= Seq::<TemplatePackageView>::empty());
    }
    while i < ps.len()
        invariant
            i <= ps.len(),
            pv == template_package_views(ps@),
            keep == (if !keep_others {
                of_template(id)
            } else {
                match name {
                    Some(n) => other_package(id, n@),
                    None => of_other_template(id),
                }
            }),
            template_package_views(out@) == pv.take(i as int).filter(keep),
        decreases ps.len() - i,
    {
        assert(pv[i as int] == ps@[i as int]@);
        proof {
            assert(pv.take(i + 1) == pv.take(i as int).push(pv[i as int]));
            pv.take(i as int).lemma_filter_push(pv[i as int], keep);
        }
        let this = ps[i].template_id == id && (match name {
            Some(n) => str_eq(ps[i].package_name.as_str(), n),
            None => true,
        });
        let wanted = if keep_others {
            !this
        } else {
            ps[i].template_id == id
        };
        if wanted {
            let p = ps[i].duplicate();
            assert(template_package_views(out@.push(p)) =~= template_package_views(out@).push(p@));
            out.push(p);
        }
        i += 1;
    }
    assert(pv.take(ps.len() as int) == pv);
    out
}

impl TemplateStore {
    /// An empty store.
    pub fn new() -> (r: TemplateStore)
        ensures
            r@.wf(),
            r@.templates.len() == 0,
            r@.packages.len() == 0,
            r@.session.is_none(),
            r@.next_id == 1,
    {
        TemplateStore { templates: Vec::new(), packages: Vec::new(), session: None, next_id: 1 }
    }

    fn find_template(&self, name: &str, version: Option<&str>) -> (r: usize)
        ensures
            r == template_index(
                self@.templates,
                name@,
                match version {
                    Some(v) => Some(v@),
                    None => None,
                },
                0,
            ),
            r <= self.templates.len(),
    {
        let ghost ts = self@.templates;
        let ghost ver = match version {
            Some(v) => Some(v@),
            None => None,
        };
        let mut k: usize = 0;
        while k < self.templates.len()
            invariant
                k <= self.templates.len(),
                ts == template_views(self.templates@),
                ver == (match version {
                    Some(v) => Some(v@),
                    None => None,
                }),
                template_index(ts, name@, ver, 0) == template_index(ts, name@, ver, k as int),
            decreases self.templates.len() - k,
        {
            assert(ts[k as int] == self.templates@[k as int]@);
            let t = &self.templates[k];
            if str_eq(t.name.as_str(), name) && (match version {
                Some(v) => str_eq(t.version.as_str(), v),
                None => true,
            }) {
                return k;
            }
            k += 1;
        }
        k
    }

    fn has_id(&self, id: u64) -> (b: bool)
        ensures
            b == self@.has_template(id),
    {
        let mut k: usize = 0;
        while k < self.templates.len()
            invariant
                k <= self.templates.len(),
                forall|j: int| 0 <= j < k ==> (#[trigger] self@.templates[j]).id != id,
            decreases self.templates.len() - k,
        {
            assert(self@.templates[k as int] == self.templates@[k as int]@);
            if self.templates[k].id == id {
                return true;
            }
            k += 1;
        }
        false
    }

    /// Creates the template `name` in the version `version`, or updates
    /// it where it is there. Returns its identifier.
    pub fn create_template(&mut self, name: &str, version: &str, python_version: &str, now: i64) -> (r:
        Result<u64, TemplateError>)
        requires
            old(self)@.wf(),
        ensures
            final(self)@.wf(),
            match r {
                Ok(id) => {
                    let i = template_index(old(self)@.templates, name@, Some(version@), 0);
                    let t = TemplateView {
                        id,
                        name: name@,
                        version: version@,
                        python_version: python_version@,
                        updated_at: now,
                    };
                    if i < old(self)@.templates.len() {
                        id == old(self)@.templates[i].id && final(self)@ == (StoreView {
                            templates: old(self)@.templates.update(i, t),
                            ..old(self)@
                        })
                    } else {
                        id == old(self)@.next_id && final(self)@ == (StoreView {
                            templates: old(self)@.templates.push(t),
                            next_id: (id + 1) as u64,
                            ..old(self)@
                        })
                    }
                },
                Err(e) => e == TemplateError::Full && final(self)@ == old(self)@ && template_index(
                    old(self)@.templates,
                    name@,
                    Some(version@),
                    0,
                ) >= old(self)@.templates.len() && old(self)@.next_id == u64::MAX,
            },
    {
        let ghost before = self@;
        let i = self.find_template(name, Some(version));
        proof {
            lemma_template_index(before.templates, name@, Some(version@), 0);
        }
        if i < self.templates.len() {
            assert(before.templates[i as int] == self.templates@[i as int]@);
            let id = self.templates[i].id;
            let t = Template {
                id,
                name: copy_str(name),
                version: copy_str(version),
                python_version: copy_str(python_version),
                updated_at: now,
            };
            self.templates.set(i, t);
            assert(template_views(self.templates@) =~= before.templates.update(i as int, t@));
            proof {
                let r = self@;
                assert forall|id2: u64| before.has_template(id2) implies #[trigger] r.has_template(
                    id2,
                ) by {
                    let k = choose|k: int|
                        0 <= k < before.templates.len() && (#[trigger] before.templates[k]).id
                            == id2;
                    assert(r.templates[k].id == id2);
                }
                assert forall|k: int| 0 <= k < r.packages.len() implies r.has_template(
                    (#[trigger] r.packages[k]).template_id,
                ) by {
                    assert(before.has_template(before.packages[k].template_id));
                }
                assert forall|a: int, b: int| 0 <= a < b < r.templates.len() implies (
                #[trigger] r.templates[a]).id != (#[trigger] r.templates[b]).id && !(
                r.templates[a].name == r.templates[b].name && r.templates[a].version
                    == r.templates[b].version) by {
                    assert(before.templates[a].id != before.templates[b].id);
                    assert(!(before.templates[a].name == before.templates[b].name
                        && before.templates[a].version == before.templates[b].version));
                }
                if before.session.is_some() {
                    assert(before.has_template(before.session.unwrap().0));
                }
            }
            Ok(id)
        } else {
            if self.next_id == u64::MAX {
                return Err(TemplateError::Full);
            }
            let id = self.next_id;
            let t = Template {
                id,
                name: copy_str(name),
                version: copy_str(version),
                python_version: copy_str(python_version),
                updated_at: now,
            };
            self.templates.push(t);
            self.next_id = id + 1;
            assert(template_views(self.templates@) =~= before.templates.push(t@));
            proof {
                let r = self@;
                assert forall|id2: u64| before.has_template(id2) implies #[trigger] r.has_template(
                    id2,
                ) by {
                    let k = choose|k: int|
                        0 <= k < before.templates.len() && (#[trigger] before.templates[k]).id
                            == id2;
                    assert(r.templates[k].id == id2);
                }
                assert forall|k: int| 0 <= k < r.packages.len() implies r.has_template(
                    (#[trigger] r.packages[k]).template_id,
                ) by {
                    assert(before.has_template(before.packages[k].template_id));
                }
                assert forall|a: int, b: int| 0 <= a < b < r.templates.len() implies (
                #[trigger] r.templates[a]).id != (#[trigger] r.templates[b]).id && !(
                r.templates[a].name == r.templates[b].name && r.templates[a].version
                    == r.templates[b].version) by {
                    if b < before.templates.len() {
                        assert(before.templates[a].id != before.templates[b].id);
                        assert(!(before.templates[a].name == before.templates[b].name
                            && before.templates[a].version == before.templates[b].version));
                    } else {
                        assert(before.templates[a].id < before.next_id);
                    }
                }
                if before.session.is_some() {
                    assert(before.has_template(before.session.unwrap().0));
                }
            }
            Ok(id)
        }
    }

    /// The identifier of the template `name` in the version `version`.
    pub fn get_template_id(&self, name: &str, version: &str) -> (r: Option<u64>)
        ensures
            r == (if template_index(self@.templates, name@, Some(version@), 0)
                < self@.templates.len() {
                Some(self@.templates[template_index(self@.templates, name@, Some(version@), 0)].id)
            } else {
                None
            }),
    {
        let i = self.find_template(name, Some(version));
        if i < self.templates.len() {
            assert(self@.templates[i as int] == self.templates@[i as int]@);
            Some(self.templates[i].id)
        } else {
            None
        }
    }

    /// The templates, in the order in which they were first created.
    pub fn list_templates(&self) -> (r: &Vec<Template>)
        ensures
            template_views(r@) == self@.templates,
    {
        &self.templates
    }

    /// Adds a package to a template, in the place of a package of the
    /// same name that the template has.
    pub fn add_template_package(&mut self, package: TemplatePackage) -> (r: Result<
        (),
        TemplateError,
    >)
        requires
            old(self)@.wf(),
        ensures
            final(self)@.wf(),
            match r {
                Ok(_) => old(self)@.has_template(package.template_id) && final(self)@ == old(
                    self,
                )@.with_package(package@),
                Err(e) => e == TemplateError::NotFound && !old(self)@.has_template(
                    package.template_id,
                ) && final(self)@ == old(self)@,
            },
    {
        let ghost before = self@;
        if !self.has_id(package.template_id) {
            return Err(TemplateError::NotFound);
        }
        proof {
            lemma_with_package(before, package@);
        }
        let mut kept = filter_packages(
            &self.packages,
            package.template_id,
            Some(package.package_name.as_str()),
            true,
        );
        assert(template_package_views(kept@.push(package)) =~= template_package_views(kept@).push(
            package@,
        ));
        kept.push(package);
        self.packages = kept;
        Ok(())
    }

    /// Removes the package `name` from the template `template_id`.
    /// Returns whether the template had the package.
    pub fn remove_template_package(&mut self, template_id: u64, name: &str) -> (removed: bool)
        requires
            old(self)@.wf(),
        ensures
            final(self)@.wf(),
            final(self)@ == old(self)@.without_package(template_id, name@),
            removed == (final(self)@.packages.len() < old(self)@.packages.len()),
    {
        let ghost before = self@;
        let ghost keep = other_package(template_id, name@);
        let kept = filter_packages(&self.packages, template_id, Some(name), true);
        proof {
            before.packages.lemma_filter_len(keep);
        }
        let removed = kept.len() < self.packages.len();
        self.packages = kept;
        proof {
            let r = self@;
            assert forall|k: int| 0 <= k < r.packages.len() implies r.has_template(
                (#[trigger] r.packages[k]).template_id,
            ) by {
                let k0 = lemma_filter_one(before.packages, keep, k);
                assert(before.has_template(before.packages[k0].template_id));
                lemma_has_template_same(before, r, before.packages[k0].template_id);
            }
            assert forall|a: int, b: int| 0 <= a < b < r.packages.len() implies !((
            #[trigger] r.packages[a]).template_id == (#[trigger] r.packages[b]).template_id
                && r.packages[a].package_name == r.packages[b].package_name) by {
                let w = lemma_filter_pair(before.packages, keep, a, b);
                assert(!(before.packages[w.0].template_id == before.packages[w.1].template_id
                    && before.packages[w.0].package_name == before.packages[w.1].package_name));
            }
            if before.session.is_some() {
                lemma_has_template_same(before, r, before.session.unwrap().0);
            }
        }
        removed
    }

    /// The packages of a template, in the order of their steps; packages
    /// of one step in the order in which they were added.
    pub fn get_template_packages(&self, template_id: u64) -> (r: Vec<TemplatePackage>)
        ensures
            template_package_views(r@) == packages_in_steps(self@.packages, template_id),
    {
        let mine = filter_packages(&self.packages, template_id, None, false);
        let mut keys: Vec<SortKey> = Vec::new();
        let mut j: usize = 0;
        while j < mine.len()
            invariant
                j <= mine.len(),
                keys.len() == j,
                forall|k: int|
                    0 <= k < j ==> (#[trigger] keys@[k])@ == KeyView::Number(mine@[k].step),
            decreases mine.len() - j,
        {
            keys.push(SortKey::Number(mine[j].step));
            j += 1;
        }
        assert(key_views(keys@) =~= step_keys(template_package_views(mine@)));
        let order = sort_by_key(&keys, false);
        let mut out: Vec<TemplatePackage> = Vec::new();
        let mut k: usize = 0;
        while k < order.len()
            invariant
                k <= order.len(),
                out.len() == k,
                forall|i: int| 0 <= i < order.len() ==> #[trigger] order@[i] < mine.len(),
                forall|i: int| 0 <= i < k ==> (#[trigger] out@[i])@ == mine@[order@[i] as int]@,
            decreases order.len() - k,
        {
            out.push(mine[order[k]].duplicate());
            k += 1;
        }
        assert(template_package_views(out@) =~= packages_in_steps(self@.packages, template_id));
        out
    }

    /// Deletes the first template with the name `name`, with its
    /// packages and its session. Returns whether there was one.
    pub fn delete_template(&mut self, name: &str) -> (removed: bool)
        requires
            old(self)@.wf(),
        ensures
            final(self)@.wf(),
            final(self)@ == old(self)@.without_template(name@),
            removed == (template_index(old(self)@.templates, name@, None, 0)
                < old(self)@.templates.len()),
    {
        let ghost before = self@;
        let i = self.find_template(name, None);
        if i >= self.templates.len() {
            return false;
        }
        assert(before.templates[i as int] == self.templates@[i as int]@);
        let id = self.templates[i].id;
        let ghost keep = of_other_template(id);
        self.templates.remove(i);
        assert(template_views(self.templates@) =~= before.templates.remove(i as int));
        self.packages = filter_packages(&self.packages, id, None, true);
        let drop_session = match &self.session {
            Some(s) => s.template_id == id,
            None => false,
        };
        if drop_session {
            self.session = None;
        }
        proof {
            let r = self@;
            assert forall|id2: u64| before.has_template(id2) && id2 != id implies #[trigger] r.has_template(
                id2,
            ) by {
                let k = choose|k: int|
                    0 <= k < before.templates.len() && (#[trigger] before.templates[k]).id == id2;
                if k < i {
                    assert(r.templates[k].id == id2);
                } else {
                    assert(r.templates[k - 1].id == id2);
                }
            }
            assert forall|a: int, b: int| 0 <= a < b < r.templates.len() implies (
            #[trigger] r.templates[a]).id != (#[trigger] r.templates[b]).id && !(
            r.templates[a].name == r.templates[b].name && r.templates[a].version
                == r.templates[b].version) by {
                let a0 = if a < i {
                    a
                } else {
                    a + 1
                };
                let b0 = if b < i {
                    b
                } else {
                    b + 1
                };
                assert(r.templates[a] == before.templates[a0]);
                assert(r.templates[b] == before.templates[b0]);
            }
            assert forall|a: int| 0 <= a < r.templates.len() implies (#[trigger] r.templates[a]).id
                < r.next_id by {
                let a0 = if a < i {
                    a
                } else {
                    a + 1
                };
                assert(r.templates[a] == before.templates[a0]);
            }
            assert forall|k: int| 0 <= k < r.packages.len() implies r.has_template(
                (#[trigger] r.packages[k]).template_id,
            ) by {
                let k0 = lemma_filter_one(before.packages, keep, k);
                assert(before.has_template(before.packages[k0].template_id));
            }
            assert forall|a: int, b: int| 0 <= a < b < r.packages.len() implies !((
            #[trigger] r.packages[a]).template_id == (#[trigger] r.packages[b]).template_id
                && r.packages[a].package_name == r.packages[b].package_name) by {
                let w = lemma_filter_pair(before.packages, keep, a, b);
                assert(!(before.packages[w.0].template_id == before.packages[w.1].template_id
                    && before.packages[w.0].package_name == before.packages[w.1].package_name));
            }
            if r.session.is_some() {
                assert(before.has_template(before.session.unwrap().0));
            }
        }
        true
    }

    /// Starts the session in which the template `template_id` is
    /// recorded, in the place of a session that there is.
    pub fn start_session(&mut self, template_id: u64, env_path: &str) -> (r: Result<
        (),
        TemplateError,
    >)
        requires
            old(self)@.wf(),
        ensures
            final(self)@.wf(),
            match r {
                Ok(_) => old(self)@.has_template(template_id) && final(self)@ == (StoreView {
                    session: Some((template_id, env_path@)),
                    ..old(self)@
                }),
                Err(e) => e == TemplateError::NotFound && !old(self)@.has_template(template_id)
                    && final(self)@ == old(self)@,
            },
    {
        let ghost before = self@;
        if !self.has_id(template_id) {
            return Err(TemplateError::NotFound);
        }
        self.session = Some(Session { template_id, env_path: copy_str(env_path) });
        proof {
            let r = self@;
            assert forall|k: int| 0 <= k < r.packages.len() implies r.has_template(
                (#[trigger] r.packages[k]).template_id,
            ) by {
                assert(before.has_template(before.packages[k].template_id));
                lemma_has_template_same(before, r, before.packages[k].template_id);
            }
            lemma_has_template_same(before, r, template_id);
        }
        Ok(())
    }

    /// The session that is active: the template and the path of the
    /// environment.
    pub fn get_active_session(&self) -> (r: Option<(u64, String)>)
        ensures
            match r {
                Some((id, path)) => self@.session == Some((id, path@)),
                None => self@.session.is_none(),
            },
    {
        match &self.session {
            Some(s) => Some((s.template_id, s.env_path.clone())),
            None => None,
        }
    }

    /// Ends the session.
    pub fn clear_sessions(&mut self)
        requires
            old(self)@.wf(),
        ensures
            final(self)@.wf(),
            final(self)@ == (StoreView { session: None, ..old(self)@ }),
    {
        let ghost before = self@;
        self.session = None;
        proof {
            let r = self@;
            assert forall|k: int| 0 <= k < r.packages.len() implies r.has_template(
                (#[trigger] r.packages[k]).template_id,
            ) by {
                assert(before.has_template(before.packages[k].template_id));
                lemma_has_template_same(before, r, before.packages[k].template_id);
            }
        }
    }
}


impl TemplateStore {
    /// The packages of all templates, in the order in which they were
    /// added.
    pub fn packages(&self) -> (r: &Vec<TemplatePackage>)
        ensures
            template_package_views(r@) == self@.packages,
    {
        &self.packages
    }

    /// The identifier that the next new template gets.
    pub fn next_id(&self) -> (r: u64)
        ensures
            r == self@.next_id,
    {
        self.next_id
    }

    fn templates_ok(&self) -> (b: bool)
        ensures
            b == ((forall|i: int, j: int|
                0 <= i < j < self@.templates.len() ==> (#[trigger] self@.templates[i]).id != (
                #[trigger] self@.templates[j]).id && !(self@.templates[i].name
                    == self@.templates[j].name && self@.templates[i].version
                    == self@.templates[j].version)) && (forall|i: int|
                0 <= i < self@.templates.len() ==> (#[trigger] self@.templates[i]).id
                    < self@.next_id)),
    {
        let ghost ts = self@.templates;
        let mut j: usize = 0;
        while j < self.templates.len()
            invariant
                j <= self.templates.len(),
                ts == template_views(self.templates@),
                forall|a: int, b: int|
                    0 <= a < b < j ==> (#[trigger] ts[a]).id != (#[trigger] ts[b]).id && !(
                    ts[a].name == ts[b].name && ts[a].version == ts[b].version),
                forall|a: int| 0 <= a < j ==> (#[trigger] ts[a]).id < self.next_id,
            decreases self.templates.len() - j,
        {
            assert(ts[j as int] == self.templates@[j as int]@);
            if self.templates[j].id >= self.next_id {
                assert(self@.templates[j as int].id >= self@.next_id);
                return false;
            }
            let mut i: usize = 0;
            while i < j
                invariant
                    i <= j < self.templates.len(),
                    ts == template_views(self.templates@),
                    forall|a: int|
                        0 <= a < i ==> (#[trigger] ts[a]).id != ts[j as int].id && !(ts[a].name
                            == ts[j as int].name && ts[a].version == ts[j as int].version),
                decreases j - i,
            {
                assert(ts[i as int] == self.templates@[i as int]@);
                assert(ts[j as int] == self.templates@[j as int]@);
                if self.templates[i].id == self.templates[j].id || (str_eq(
                    self.templates[i].name.as_str(),
                    self.templates[j].name.as_str(),
                ) && str_eq(
                    self.templates[i].version.as_str(),
                    self.templates[j].version.as_str(),
                )) {
                    assert(self@.templates[i as int] == ts[i as int]);
                    assert(self@.templates[j as int] == ts[j as int]);
                    return false;
                }
                i += 1;
            }
            j += 1;
        }
        true
    }

    fn packages_ok(&self) -> (b: bool)
        ensures
            b == ((forall|i: int|
                0 <= i < self@.packages.len() ==> self@.has_template(
                    (#[trigger] self@.packages[i]).template_id,
                )) && (forall|i: int, j: int|
                0 <= i < j < self@.packages.len() ==> !((#[trigger] self@.packages[i]).template_id
                    == (#[trigger] self@.packages[j]).template_id && self@.packages[i].package_name
                    == self@.packages[j].package_name))),
    {
        let ghost ps = self@.packages;
        let mut j: usize = 0;
        while j < self.packages.len()
            invariant
                j <= self.packages.len(),
                ps == template_package_views(self.packages@),
                forall|a: int| 0 <= a < j ==> self@.has_template((#[trigger] ps[a]).template_id),
                forall|a: int, b: int|
                    0 <= a < b < j ==> !((#[trigger] ps[a]).template_id == (
                    #[trigger] ps[b]).template_id && ps[a].package_name == ps[b].package_name),
            decreases self.packages.len() - j,
        {
            assert(ps[j as int] == self.packages@[j as int]@);
            if !self.has_id(self.packages[j].template_id) {
                assert(!self@.has_template(self@.packages[j as int].template_id));
                return false;
            }
            let mut i: usize = 0;
            while i < j
                invariant
                    i <= j < self.packages.len(),
                    ps == template_package_views(self.packages@),
                    forall|a: int|
                        0 <= a < i ==> !((#[trigger] ps[a]).template_id == ps[j as int].template_id
                            && ps[a].package_name == ps[j as int].package_name),
                decreases j - i,
            {
                assert(ps[i as int] == self.packages@[i as int]@);
                assert(ps[j as int] == self.packages@[j as int]@);
                if self.packages[i].template_id == self.packages[j].template_id && str_eq(
                    self.packages[i].package_name.as_str(),
                    self.packages[j].package_name.as_str(),
                ) {
                    assert(self@.packages[i as int] == ps[i as int]);
                    assert(self@.packages[j as int] == ps[j as int]);
                    return false;
                }
                i += 1;
            }
            j += 1;
        }
        true
    }

    /// Makes a template store of stored content, if the content keeps
    /// the rules of the store.
    pub fn restore(
        templates: Vec<Template>,
        packages: Vec<TemplatePackage>,
        session: Option<Session>,
        next_id: u64,
    ) -> (r: Option<TemplateStore>)
        ensures
            ({
                let content = StoreView {
                    templates: template_views(templates@),
                    packages: template_package_views(packages@),
                    session: match session {
                        Some(s) => Some((s.template_id, s.env_path@)),
                        None => None,
                    },
                    next_id,
                };
                match r {
                    Some(store) => store@ == content && content.wf(),
                    None => !content.wf(),
                }
            }),
    {
        let store = TemplateStore { templates, packages, session, next_id };
        let session_ok = match &store.session {
            Some(s) => store.has_id(s.template_id),
            None => true,
        };
        if store.templates_ok() && store.packages_ok() && session_ok {
            Some(store)
        } else {
            None
        }
    }
}


impl TemplateStore {
    /// The templates, each with its packages in the order of their
    /// steps.
    pub fn get_all_templates_with_packages(&self) -> (r: Vec<(Template, Vec<TemplatePackage>)>)
        ensures
            r.len() == self@.templates.len(),
            forall|i: int|
                0 <= i < r.len() ==> (#[trigger] r@[i]).0@ == self@.templates[i]
                    && template_package_views(r@[i].1@) == packages_in_steps(
                    self@.packages,
                    self@.templates[i].id,
                ),
    {
        let mut out: Vec<(Template, Vec<TemplatePackage>)> = Vec::new();
        let mut i: usize = 0;
        while i < self.templates.len()
            invariant
                i <= self.templates.len(),
                out.len() == i,
                forall|k: int|
                    0 <= k < i ==> (#[trigger] out@[k]).0@ == self@.templates[k]
                        && template_package_views(out@[k].1@) == packages_in_steps(
                        self@.packages,
                        self@.templates[k].id,
                    ),
            decreases self.templates.len() - i,
        {
            assert(self@.templates[i as int] == self.templates@[i as int]@);
            let t = self.templates[i].duplicate();
            let ps = self.get_template_packages(t.id);
            out.push((t, ps));
            i += 1;
        }
        out
    }
}

} // verus!
