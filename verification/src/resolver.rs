//! The activation resolver: which environment to activate in a
//! directory.
//!
//! The search looks downward, at links of the directory and of
//! directories below it, and upward, at links of the directories above
//! it. Whether the environment of a candidate still exists is for the
//! caller to find out; the resolver decides on what the caller found.

use crate::registry::{
    append_candidates, candidate_views, found, Candidate, CandidateView, PathQuery,
    QueryView, Registry, RegistryView,
};
use crate::text::{
    chars_of, lemma_string_views_push, same, same_str, slice, string_of, string_views,
    through_last, through_last_of,
};
use vstd::prelude::*;

verus! {

/// How many levels the search goes down and up.
pub const SEARCH_DEPTH: usize = 2;

/// The directory above the directory `path`, for a path in canonical
/// form: what stands before the last `/`, and `/` for a directory right
/// below the root. The root has none.
pub open spec fn parent_dir(path: Seq<char>) -> Option<Seq<char>> {
    let e = through_last(path, '/');
    if e == 0 || path.len() == 1 {
        None
    } else if e == 1 {
        Some(seq!['/'])
    } else {
        Some(path.take(e - 1))
    }
}

/// Whether the search stops below the directory `dir`: at the home
/// directory and at `/`, `/tmp`, `/home` and `/root`.
pub open spec fn stops_at(dir: Seq<char>, home: Seq<char>) -> bool {
    dir == home || dir == "/"@ || dir == "/tmp"@ || dir == "/home"@ || dir == "/root"@
}

/// Whether `dir` holds projects rather than being one: it stands right
/// below the root or right below the home directory.
pub open spec fn is_umbrella(dir: Seq<char>, home: Seq<char>) -> bool {
    parent_dir(dir) == Some(seq!['/']) || parent_dir(dir) == Some(home)
}

/// The directories above `dir` that the search looks at, nearest first:
/// at most `depth` of them, and none from the first that the search
/// stops at or that is an umbrella directory.
pub open spec fn ancestors(dir: Seq<char>, home: Seq<char>, depth: nat) -> Seq<Seq<char>>
    decreases depth,
{
    if depth == 0 {
        Seq::empty()
    } else {
        match parent_dir(dir) {
            None => Seq::empty(),
            Some(p) => if stops_at(p, home) || is_umbrella(p, home) {
                Seq::empty()
            } else {
                seq![p] + ancestors(p, home, (depth - 1) as nat)
            },
        }
    }
}

/// Whether one of the first `n` candidates is for the environment
/// `name`.
pub open spec fn names_env(c: Seq<CandidateView>, n: int, name: Seq<char>) -> bool
    decreases n,
{
    if n <= 0 {
        false
    } else {
        c[n - 1].env_name == name || names_env(c, n - 1, name)
    }
}

/// The first `n` candidates with one candidate for each environment:
/// the first one.
pub open spec fn first_per_env(c: Seq<CandidateView>, n: int) -> Seq<CandidateView>
    decreases n,
{
    if n <= 0 {
        Seq::empty()
    } else if names_env(c, n - 1, c[n - 1].env_name) {
        first_per_env(c, n - 1)
    } else {
        first_per_env(c, n - 1).push(c[n - 1])
    }
}

/// Of the candidates kept, no two are for one environment; each is one
/// of the candidates given, and an environment that a candidate names
/// has a candidate among those kept.
pub proof fn lemma_first_per_env(c: Seq<CandidateView>, n: int)
    requires
        0 <= n <= c.len(),
    ensures
        forall|i: int, j: int|
            0 <= i < j < first_per_env(c, n).len() ==> (#[trigger] first_per_env(c, n)[i]).env_name
                != (#[trigger] first_per_env(c, n)[j]).env_name,
        forall|i: int|
            0 <= i < first_per_env(c, n).len() ==> names_env(
                c,
                n,
                (#[trigger] first_per_env(c, n)[i]).env_name,
            ),
        forall|name: Seq<char>|
            #![trigger names_env(c, n, name)]
            names_env(c, n, name) ==> names_env(first_per_env(c, n), first_per_env(c, n).len() as int, name),
    decreases n,
{
    if n > 0 {
        lemma_first_per_env(c, n - 1);
        let prev = first_per_env(c, n - 1);
        let cur = first_per_env(c, n);
        let x = c[n - 1];
        if !names_env(c, n - 1, x.env_name) {
            assert forall|i: int, j: int| 0 <= i < j < cur.len() implies (#[trigger] cur[i]).env_name
                != (#[trigger] cur[j]).env_name by {
                if j == prev.len() {
                    assert(cur[i] == prev[i]);
                    assert(names_env(c, n - 1, prev[i].env_name));
                }
            }
            assert forall|name: Seq<char>|
                #![trigger names_env(c, n, name)]
                names_env(c, n, name) implies names_env(cur, cur.len() as int, name) by {
                lemma_names_env_prefix(cur, prev, prev.len() as int, name);
                assert(cur[cur.len() - 1] == x);
                if x.env_name != name {
                    assert(names_env(c, n - 1, name));
                    assert(names_env(prev, prev.len() as int, name));
                }
            }
        } else {
            assert forall|name: Seq<char>|
                #![trigger names_env(c, n, name)]
                names_env(c, n, name) implies names_env(cur, cur.len() as int, name) by {
                assert(names_env(c, n - 1, name));
            }
        }
        assert forall|i: int| 0 <= i < cur.len() implies names_env(
            c,
            n,
            (#[trigger] cur[i]).env_name,
        ) by {
            if i < prev.len() {
                assert(cur[i] == prev[i]);
                assert(names_env(c, n - 1, prev[i].env_name));
            }
        }
    }
}

proof fn lemma_names_env_prefix(a: Seq<CandidateView>, b: Seq<CandidateView>, n: int, name: Seq<char>)
    requires
        0 <= n <= a.len(),
        n <= b.len(),
        forall|i: int| 0 <= i < n ==> a[i] == b[i],
    ensures
        names_env(a, n, name) == names_env(b, n, name),
    decreases n,
{
    if n > 0 {
        lemma_names_env_prefix(a, b, n - 1, name);
    }
}

/// The candidates that exact queries for the first `n` directories of
/// `paths` find, one directory after the other, those of one directory
/// in the order of their rank.
pub open spec fn found_each(v: RegistryView, paths: Seq<Seq<char>>, n: int) -> Seq<CandidateView>
    decreases n,
{
    if n <= 0 {
        Seq::empty()
    } else {
        found_each(v, paths, n - 1) + found(v, QueryView::Exact(paths[n - 1]))
    }
}

/// The candidates of the downward and the upward search, one after the
/// other.
pub open spec fn searched(v: RegistryView, cwd: Seq<char>, home: Seq<char>) -> Seq<CandidateView> {
    let up = ancestors(cwd, home, SEARCH_DEPTH as nat);
    found(v, QueryView::Within(cwd, SEARCH_DEPTH)) + found_each(v, up, up.len() as int)
}

/// The candidates for activation in the directory `cwd`.
///
/// First those linked to `cwd` or to a directory at most two levels
/// below it, in the order of their rank; then those linked to the
/// directory above `cwd`, and then to the one above that, each in the
/// order of their rank. Of several candidates for one environment the
/// first is kept.
pub open spec fn gathered(v: RegistryView, cwd: Seq<char>, home: Seq<char>) -> Seq<CandidateView> {
    first_per_env(searched(v, cwd, home), searched(v, cwd, home).len() as int)
}

/// Exec counterpart of `parent_dir`.
pub fn parent_of(path: &Vec<char>) -> (r: Option<Vec<char>>)
    ensures
        crate::text::opt_view(r) == parent_dir(path@),
{
    let e = through_last_of(path, '/');
    if e == 0 || path.len() == 1 {
        None
    } else if e == 1 {
        let mut root: Vec<char> = Vec::new();
        root.push('/');
        assert(root@ =~= seq!['/']);
        Some(root)
    } else {
        Some(slice(path, 0, e - 1))
    }
}

fn stops_at_of(dir: &Vec<char>, home: &Vec<char>) -> (b: bool)
    ensures
        b == stops_at(dir@, home@),
{
    same(dir, home) || same_str(dir, "/") || same_str(dir, "/tmp") || same_str(dir, "/home")
        || same_str(dir, "/root")
}

fn is_umbrella_of(dir: &Vec<char>, home: &Vec<char>) -> (b: bool)
    ensures
        b == is_umbrella(dir@, home@),
{
    match parent_of(dir) {
        Some(p) => {
            proof {
                reveal_strlit("/");
                assert("/"@ =~= seq!['/']);
            }
            same_str(&p, "/") || same(&p, home)
        },
        None => false,
    }
}

/// The directories above `cwd` that the upward search looks at, nearest
/// first. `home` is the home directory of the user.
pub fn search_ancestors(cwd: &str, home: &str) -> (r: Vec<String>)
    ensures
        string_views(r@) == ancestors(cwd@, home@, SEARCH_DEPTH as nat),
{
    let h = chars_of(home);
    let mut out: Vec<String> = Vec::new();
    let mut cur = chars_of(cwd);
    let mut left: usize = SEARCH_DEPTH;
    proof {
        assert(string_views(out@) + ancestors(cur@, h@, left as nat) =~= ancestors(
            cwd@,
            home@,
            SEARCH_DEPTH as nat,
        ));
    }
    while left > 0
        invariant
            h@ == home@,
            string_views(out@) + ancestors(cur@, h@, left as nat) == ancestors(
                cwd@,
                home@,
                SEARCH_DEPTH as nat,
            ),
        decreases left,
    {
        let p = match parent_of(&cur) {
            Some(p) => p,
            None => {
                assert(string_views(out@) + Seq::<Seq<char>>::empty() =~= string_views(out@));
                return out;
            },
        };
        if stops_at_of(&p, &h) || is_umbrella_of(&p, &h) {
            assert(string_views(out@) + Seq::<Seq<char>>::empty() =~= string_views(out@));
            return out;
        }
        let s = string_of(&p);
        proof {
            lemma_string_views_push(out@, s);
            assert(string_views(out@) + (seq![p@] + ancestors(p@, h@, (left - 1) as nat))
                =~= string_views(out@).push(p@) + ancestors(p@, h@, (left - 1) as nat));
        }
        out.push(s);
        cur = p;
        left -= 1;
    }
    assert(string_views(out@) + Seq::<Seq<char>>::empty() =~= string_views(out@));
    out
}

fn names_env_of(c: &Vec<Candidate>, n: usize, name: &str) -> (b: bool)
    requires
        n <= c.len(),
    ensures
        b == names_env(candidate_views(c@), n as int, name@),
{
    let nv = chars_of(name);
    let mut k: usize = n;
    while k > 0
        invariant
            k <= n <= c.len(),
            nv@ == name@,
            names_env(candidate_views(c@), n as int, name@) == names_env(
                candidate_views(c@),
                k as int,
                name@,
            ),
        decreases k,
    {
        assert(candidate_views(c@)[k - 1] == c@[k - 1]@);
        if same(&chars_of(c[k - 1].env_name.as_str()), &nv) {
            return true;
        }
        k -= 1;
    }
    false
}

/// Keeps, of several candidates for one environment, the first.
pub fn dedup_by_env(c: &Vec<Candidate>) -> (r: Vec<Candidate>)
    ensures
        candidate_views(r@) == first_per_env(candidate_views(c@), c.len() as int),
{
    let mut out: Vec<Candidate> = Vec::new();
    let ghost cv = candidate_views(c@);
    let mut i: usize = 0;
    proof {
        assert(candidate_views(out@) =~= first_per_env(cv, 0));
    }
    while i < c.len()
        invariant
            i <= c.len(),
            cv == candidate_views(c@),
            candidate_views(out@) == first_per_env(cv, i as int),
        decreases c.len() - i,
    {
        assert(cv[i as int] == c@[i as int]@);
        if !names_env_of(c, i, c[i].env_name.as_str()) {
            let x = c[i].duplicate();
            assert(candidate_views(out@.push(x)) =~= candidate_views(out@).push(x@));
            out.push(x);
        }
        i += 1;
    }
    out
}

/// Gathers the candidates for activation in the directory `cwd`, which
/// is given in canonical form; `home` is the home directory of the
/// user.
pub fn gather_candidates(registry: &Registry, cwd: &str, home: &str) -> (r: Vec<Candidate>)
    requires
        registry@.wf(),
    ensures
        candidate_views(r@) == gathered(registry@, cwd@, home@),
{
    let q = PathQuery::Within(string_of(&chars_of(cwd)), SEARCH_DEPTH);
    let mut all = registry.find_candidates(&q);
    let up = search_ancestors(cwd, home);
    let ghost down = candidate_views(all@);
    let ghost ups = string_views(up@);
    let mut i: usize = 0;
    proof {
        assert(candidate_views(all@) =~= down + found_each(registry@, ups, 0));
    }
    while i < up.len()
        invariant
            i <= up.len(),
            registry@.wf(),
            ups == string_views(up@),
            candidate_views(all@) == down + found_each(registry@, ups, i as int),
        decreases up.len() - i,
    {
        assert(ups[i as int] == up@[i as int]@);
        let here = registry.get_project_environments(up[i].as_str());
        append_candidates(&mut all, &here);
        assert(candidate_views(all@) =~= down + found_each(registry@, ups, i + 1));
        i += 1;
    }
    dedup_by_env(&all)
}

/// What the resolver decides.
#[derive(Debug, Clone)]
pub enum Resolution {
    /// No environment is linked to the directory.
    NoLinks,
    /// One candidate is left: it is selected.
    Selected(Candidate),
    /// Several candidates are left, in the order of their rank: the user
    /// chooses.
    Choice(Vec<Candidate>),
}

/// What the resolver decides, and the environments of the links that
/// were found stale.
#[derive(Debug, Clone)]
pub struct Resolved {
    pub outcome: Resolution,
    /// The names of the environments that are linked but no longer
    /// exist, for a warning.
    pub stale: Vec<String>,
}

/// Whether the environment of candidate `k` was found to exist.
pub open spec fn alive(exists: Seq<bool>, k: int) -> bool {
    0 <= k < exists.len() && exists[k]
}

/// Those of the first `n` candidates whose environment exists.
pub open spec fn valid(c: Seq<CandidateView>, exists: Seq<bool>, n: int) -> Seq<CandidateView>
    decreases n,
{
    if n <= 0 {
        Seq::empty()
    } else if alive(exists, n - 1) {
        valid(c, exists, n - 1).push(c[n - 1])
    } else {
        valid(c, exists, n - 1)
    }
}

/// The names of the environments of those of the first `n` candidates
/// whose environment does not exist.
pub open spec fn stale_names(c: Seq<CandidateView>, exists: Seq<bool>, n: int) -> Seq<Seq<char>>
    decreases n,
{
    if n <= 0 {
        Seq::empty()
    } else if !alive(exists, n - 1) {
        stale_names(c, exists, n - 1).push(c[n - 1].env_name)
    } else {
        stale_names(c, exists, n - 1)
    }
}

/// What is decided on the candidates whose environment exists.
pub enum ResolutionView {
    NoLinks,
    Selected(CandidateView),
    Choice(Seq<CandidateView>),
}

impl View for Resolution {
    type V = ResolutionView;

    open spec fn view(&self) -> ResolutionView {
        match self {
            Resolution::NoLinks => ResolutionView::NoLinks,
            Resolution::Selected(c) => ResolutionView::Selected(c@),
            Resolution::Choice(v) => ResolutionView::Choice(candidate_views(v@)),
        }
    }
}

/// The decision on the valid candidates `v`: none is an error, one is
/// selected, several are a choice for the user.
pub open spec fn decision(v: Seq<CandidateView>) -> ResolutionView {
    if v.len() == 0 {
        ResolutionView::NoLinks
    } else if v.len() == 1 {
        ResolutionView::Selected(v[0])
    } else {
        ResolutionView::Choice(v)
    }
}

/// Decides on the gathered candidates. `exists` says of each candidate,
/// in order, whether its environment still exists; a candidate without
/// such a word counts as stale.
pub fn resolve(candidates: &Vec<Candidate>, exists: &Vec<bool>) -> (r: Resolved)
    ensures
        r.outcome@ == decision(
            valid(candidate_views(candidates@), exists@, candidates.len() as int),
        ),
        string_views(r.stale@) == stale_names(
            candidate_views(candidates@),
            exists@,
            candidates.len() as int,
        ),
{
    let mut keep: Vec<Candidate> = Vec::new();
    let mut stale: Vec<String> = Vec::new();
    let ghost cv = candidate_views(candidates@);
    let mut i: usize = 0;
    proof {
        assert(candidate_views(keep@) =~= valid(cv, exists@, 0));
        assert(string_views(stale@) =~= stale_names(cv, exists@, 0));
    }
    while i < candidates.len()
        invariant
            i <= candidates.len(),
            cv == candidate_views(candidates@),
            candidate_views(keep@) == valid(cv, exists@, i as int),
            string_views(stale@) == stale_names(cv, exists@, i as int),
        decreases candidates.len() - i,
    {
        assert(cv[i as int] == candidates@[i as int]@);
        if i < exists.len() && exists[i] {
            let x = candidates[i].duplicate();
            assert(candidate_views(keep@.push(x)) =~= candidate_views(keep@).push(x@));
            keep.push(x);
        } else {
            let n = candidates[i].env_name.clone();
            proof {
                lemma_string_views_push(stale@, n);
            }
            stale.push(n);
        }
        i += 1;
    }
    let outcome = if keep.len() == 0 {
        Resolution::NoLinks
    } else if keep.len() == 1 {
        assert(candidate_views(keep@)[0] == keep@[0]@);
        Resolution::Selected(keep[0].duplicate())
    } else {
        Resolution::Choice(keep)
    };
    Resolved { outcome, stale }
}

} // verus!
