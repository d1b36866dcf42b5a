//! Environment markers: whether the marker of a requirement excludes the
//! requirement from an environment with a given Python version.

use crate::text::{
    chars_of, contains_str, contains_sub, find_sub, find_sub_of, lemma_find_sub, slice,
    split_sub, split_sub_of, strip, strip_end, strip_end_of, strip_of, strip_start,
    strip_start_of, trim, trim_of, views, CharClass,
};
use crate::version::{compare, compare_chars};
use vstd::prelude::*;

verus! {

/// A comparison of the environment's Python version with a version.
#[derive(Clone, Copy, Debug, PartialEq, Eq, Structural)]
pub enum Comparison {
    GreaterEq,
    LessEq,
    NotEq,
    Equal,
    Greater,
    Less,
}

/// Whether the text mentions the Python version.
pub open spec fn mentions_python(s: Seq<char>) -> bool {
    contains_sub(s, "python_version"@) || contains_sub(s, "python_full_version"@)
}

/// The clause without white space around it, opening parentheses before
/// it and closing parentheses after it.
pub open spec fn bare_clause(clause: Seq<char>) -> Seq<char> {
    strip_end(strip_start(trim(clause), CharClass::Only('(')), CharClass::Only(')'))
}

/// The comparison that a clause makes and the text after its operator.
/// The operators are looked for anywhere in the clause, in the order
/// `>=`, `<=`, `!=`, `==`, `>`, `<`; the first one found counts, at its
/// first occurrence. `None` for a clause without operator.
pub open spec fn clause_comparison(c: Seq<char>) -> Option<(Comparison, Seq<char>)> {
    if contains_sub(c, ">="@) {
        Some((Comparison::GreaterEq, c.skip(find_sub(c, ">="@) + 2)))
    } else if contains_sub(c, "<="@) {
        Some((Comparison::LessEq, c.skip(find_sub(c, "<="@) + 2)))
    } else if contains_sub(c, "!="@) {
        Some((Comparison::NotEq, c.skip(find_sub(c, "!="@) + 2)))
    } else if contains_sub(c, "=="@) {
        Some((Comparison::Equal, c.skip(find_sub(c, "=="@) + 2)))
    } else if contains_sub(c, ">"@) {
        Some((Comparison::Greater, c.skip(find_sub(c, ">"@) + 1)))
    } else if contains_sub(c, "<"@) {
        Some((Comparison::Less, c.skip(find_sub(c, "<"@) + 1)))
    } else {
        None
    }
}

/// The version that a clause compares with: the text after the operator
/// without white space and quotes around it.
pub open spec fn quoted_version(after: Seq<char>) -> Seq<char> {
    trim(strip(strip(trim(after), CharClass::Only('"')), CharClass::Only('\'')))
}

/// Whether the comparison holds of the order `c` of two versions.
pub open spec fn comparison_holds(op: Comparison, c: int) -> bool {
    match op {
        Comparison::GreaterEq => c >= 0,
        Comparison::LessEq => c <= 0,
        Comparison::NotEq => c != 0,
        Comparison::Equal => c == 0,
        Comparison::Greater => c > 0,
        Comparison::Less => c < 0,
    }
}

/// Whether one Python-version clause is true of the Python version `py`.
/// A clause without operator or without version counts as true.
pub open spec fn clause_true(clause: Seq<char>, py: Seq<char>) -> bool {
    match clause_comparison(bare_clause(clause)) {
        None => true,
        Some((op, after)) => quoted_version(after).len() == 0 || comparison_holds(
            op,
            compare(py, quoted_version(after)),
        ),
    }
}

/// Whether a clause is a comparison of the Python version that is false
/// of `py`. A clause on anything else, the operating system or the
/// platform or a thing that is not understood, is never false.
pub open spec fn clause_false(clause: Seq<char>, py: Seq<char>) -> bool {
    mentions_python(trim(clause)) && !clause_true(trim(clause), py)
}

/// Whether a disjunction is false: every one of its clauses is.
pub open spec fn disjunction_false(clauses: Seq<Seq<char>>, py: Seq<char>) -> bool {
    clauses.len() > 0 && forall|i: int|
        0 <= i < clauses.len() ==> clause_false(#[trigger] clauses[i], py)
}

/// Whether one part of a conjunction is false. The part is read as a
/// disjunction of the clauses that ` or ` separates; a part without
/// ` or ` is a single clause.
pub open spec fn part_false(part: Seq<char>, py: Seq<char>) -> bool {
    disjunction_false(split_sub(part, " or "@), py)
}

/// Whether the Python-version clauses of a marker exclude the Python
/// version `py`.
///
/// The marker is read as a conjunction of the parts that ` and `
/// separates, each part as a disjunction of the clauses that ` or `
/// separates. It excludes where one part is false, that is where every
/// clause of that part is a comparison of the Python version that does
/// not hold of `py`. A marker that does not mention the Python version
/// never excludes.
pub open spec fn excludes_python(marker: Seq<char>, py: Seq<char>) -> bool {
    mentions_python(marker) && exists|i: int|
        0 <= i < split_sub(marker, " and "@).len() && part_false(
            #[trigger] split_sub(marker, " and "@)[i],
            py,
        )
}

/// Whether the marker asks for an extra.
pub open spec fn mentions_extra(marker: Seq<char>) -> bool {
    contains_sub(marker, "extra =="@) || contains_sub(marker, "extra==\""@)
}

/// Whether a marker excludes the requirement it stands behind: it asks
/// for an extra, or its Python-version clauses exclude `py`. Clauses on
/// the operating system or the platform never exclude, and neither does
/// anything that is not understood.
pub open spec fn excludes(marker: Seq<char>, py: Seq<char>) -> bool {
    mentions_extra(marker) || excludes_python(marker, py)
}

/// A marker that speaks neither of the Python version nor of an extra
/// excludes nothing.
pub proof fn lemma_unknown_marker_does_not_exclude(marker: Seq<char>, py: Seq<char>)
    requires
        !mentions_python(marker),
        !mentions_extra(marker),
    ensures
        !excludes(marker, py),
{
}

/// A disjunction in which one clause does not speak of the Python version
/// excludes nothing, whatever the other clauses compare: such a clause
/// counts as true.
pub proof fn lemma_other_clause_keeps_disjunction(marker: Seq<char>, i: int, py: Seq<char>)
    requires
        !contains_sub(marker, " and "@),
        !mentions_extra(marker),
        0 <= i < split_sub(marker, " or "@).len(),
        !mentions_python(trim(split_sub(marker, " or "@)[i])),
    ensures
        !excludes(marker, py),
{
    reveal_strlit(" and ");
    assert(split_sub(marker, " and "@) =~= seq![marker]);
    assert(!clause_false(split_sub(marker, " or "@)[i], py));
}

/// A Python-version clause in which no comparison is found is true, and a
/// marker made of it alone excludes nothing.
pub proof fn lemma_clause_without_operator_is_true(clause: Seq<char>, py: Seq<char>)
    requires
        clause_comparison(bare_clause(clause)).is_none(),
    ensures
        clause_true(clause, py),
{
}

fn mentions_python_of(s: &Vec<char>) -> (b: bool)
    ensures
        b == mentions_python(s@),
{
    contains_str(s, "python_version") || contains_str(s, "python_full_version")
}

/// Exec counterpart of `clause_comparison`.
fn clause_comparison_of(c: &Vec<char>) -> (r: Option<(Comparison, Vec<char>)>)
    ensures
        match r {
            Some((op, after)) => clause_comparison(c@) == Some((op, after@)),
            None => clause_comparison(c@).is_none(),
        },
{
    proof {
        reveal_strlit(">=");
        reveal_strlit("<=");
        reveal_strlit("!=");
        reveal_strlit("==");
        reveal_strlit(">");
        reveal_strlit("<");
    }
    if let Some(after) = after_operator(c, ">=") {
        return Some((Comparison::GreaterEq, after));
    }
    if let Some(after) = after_operator(c, "<=") {
        return Some((Comparison::LessEq, after));
    }
    if let Some(after) = after_operator(c, "!=") {
        return Some((Comparison::NotEq, after));
    }
    if let Some(after) = after_operator(c, "==") {
        return Some((Comparison::Equal, after));
    }
    if let Some(after) = after_operator(c, ">") {
        return Some((Comparison::Greater, after));
    }
    if let Some(after) = after_operator(c, "<") {
        return Some((Comparison::Less, after));
    }
    None
}

/// The text after the first occurrence of `op` in `c`, if there is one.
fn after_operator(c: &Vec<char>, op: &str) -> (r: Option<Vec<char>>)
    ensures
        match r {
            Some(after) => contains_sub(c@, op@) && after@ == c@.skip(find_sub(c@, op@) + op@.len()),
            None => !contains_sub(c@, op@),
        },
{
    let p = chars_of(op);
    match find_sub_of(c, &p) {
        Some(i) => {
            proof {
                lemma_find_sub(c@, p@);
            }
            let after = slice(c, i + p.len(), c.len());
            Some(after)
        },
        None => None,
    }
}

fn comparison_holds_of(op: Comparison, c: i32) -> (b: bool)
    ensures
        b == comparison_holds(op, c as int),
{
    match op {
        Comparison::GreaterEq => c >= 0,
        Comparison::LessEq => c <= 0,
        Comparison::NotEq => c != 0,
        Comparison::Equal => c == 0,
        Comparison::Greater => c > 0,
        Comparison::Less => c < 0,
    }
}

/// Exec counterpart of `clause_true`, on characters.
pub fn clause_true_of(clause: &Vec<char>, py: &Vec<char>) -> (b: bool)
    ensures
        b == clause_true(clause@, py@),
{
    let t = trim_of(clause);
    let t = strip_start_of(&t, CharClass::Only('('));
    let bare = strip_end_of(&t, CharClass::Only(')'));
    match clause_comparison_of(&bare) {
        None => true,
        Some((op, after)) => {
            let v = trim_of(&after);
            let v = strip_of(&v, CharClass::Only('"'));
            let v = strip_of(&v, CharClass::Only('\''));
            let v = trim_of(&v);
            if v.len() == 0 {
                return true;
            }
            comparison_holds_of(op, compare_chars(py, &v))
        },
    }
}

/// Evaluates one Python-version clause such as `python_version < "3.11"`
/// or `python_full_version >= "3.9.0"` against the environment's Python
/// version. A clause that cannot be read counts as true.
pub fn eval_single_python_marker(clause: &str, env_py_version: &str) -> (b: bool)
    ensures
        b == clause_true(clause@, env_py_version@),
{
    clause_true_of(&chars_of(clause), &chars_of(env_py_version))
}

fn clause_false_of(clause: &Vec<char>, py: &Vec<char>) -> (b: bool)
    ensures
        b == clause_false(clause@, py@),
{
    let c = trim_of(clause);
    mentions_python_of(&c) && !clause_true_of(&c, py)
}

fn disjunction_false_of(clauses: &Vec<Vec<char>>, py: &Vec<char>) -> (b: bool)
    ensures
        b == disjunction_false(views(clauses@), py@),
{
    let ghost cs = views(clauses@);
    let mut i: usize = 0;
    while i < clauses.len()
        invariant
            i <= clauses.len(),
            cs == views(clauses@),
            forall|j: int| 0 <= j < i ==> clause_false(#[trigger] cs[j], py@),
        decreases clauses.len() - i,
    {
        assert(cs[i as int] == clauses@[i as int]@);
        if !clause_false_of(&clauses[i], py) {
            return false;
        }
        i += 1;
    }
    clauses.len() > 0
}

/// Exec counterpart of `part_false`, on characters.
fn part_false_of(part: &Vec<char>, py: &Vec<char>) -> (b: bool)
    ensures
        b == part_false(part@, py@),
{
    proof {
        reveal_strlit(" or ");
    }
    let clauses = split_sub_of(part, &chars_of(" or "));
    disjunction_false_of(&clauses, py)
}

/// Exec counterpart of `excludes_python`, on characters.
pub fn excludes_python_of(marker: &Vec<char>, py: &Vec<char>) -> (b: bool)
    ensures
        b == excludes_python(marker@, py@),
{
    if !mentions_python_of(marker) {
        return false;
    }
    proof {
        reveal_strlit(" and ");
    }
    let parts = split_sub_of(marker, &chars_of(" and "));
    let ghost ps = split_sub(marker@, " and "@);
    let mut i: usize = 0;
    while i < parts.len()
        invariant
            i <= parts.len(),
            ps == views(parts@),
            ps == split_sub(marker@, " and "@),
            mentions_python(marker@),
            forall|j: int| 0 <= j < i ==> !part_false(#[trigger] ps[j], py@),
        decreases parts.len() - i,
    {
        assert(ps[i as int] == parts@[i as int]@);
        if part_false_of(&parts[i], py) {
            assert(part_false(ps[i as int], py@));
            return true;
        }
        i += 1;
    }
    false
}

/// Whether a marker's Python-version clauses exclude the given Python
/// version, so that the requirement is to be skipped.
///
/// Handles `python_version` and `python_full_version` comparisons joined
/// by `and` or by `or`. Anything else does not exclude, and a clause on
/// anything else beside a comparison in a disjunction keeps the
/// requirement.
pub fn marker_excludes_python(marker: &str, env_py_version: &str) -> (b: bool)
    ensures
        b == excludes_python(marker@, env_py_version@),
        !mentions_python(marker@) ==> !b,
{
    excludes_python_of(&chars_of(marker), &chars_of(env_py_version))
}

/// Exec counterpart of `excludes`, on characters.
pub fn excludes_of(marker: &Vec<char>, py: &Vec<char>) -> (b: bool)
    ensures
        b == excludes(marker@, py@),
{
    if contains_str(marker, "extra ==") || contains_str(marker, "extra==\"") {
        return true;
    }
    excludes_python_of(marker, py)
}

/// Whether the marker of a requirement excludes it from an environment
/// with the given Python version.
pub fn marker_excludes(marker: &str, env_py_version: &str) -> (b: bool)
    ensures
        b == excludes(marker@, env_py_version@),
        !mentions_python(marker@) && !mentions_extra(marker@) ==> !b,
{
    excludes_of(&chars_of(marker), &chars_of(env_py_version))
}

} // verus!
