//! Version arithmetic: a lenient ordering of version strings, local-suffix
//! stripping, and the check of an installed version against a specifier.

use crate::text::{
    chars_of, digits_value, digits_value_of, ends_with, find_char, first_index_of, has_prefix,
    leading_digits, lemma_first_index, lemma_first_index_is, lemma_split_concat,
    lemma_trimmed_end, slice, split, split_of, starts_with, strip_start, through_last,
    through_last_of, trim, trim_of, views, CharClass,
};
use vstd::prelude::*;
use vstd::string::StrSliceExecFns;

verus! {

/// The number a dot-separated segment counts as: its leading decimal
/// digits, or 0 when there are none or they do not fit in 64 bits.
pub open spec fn segment_number(seg: Seq<char>) -> nat {
    let n = digits_value(leading_digits(seg));
    if n <= u64::MAX {
        n
    } else {
        0
    }
}

/// The number of segment `i`, with 0 standing in past the last segment.
pub open spec fn number_at(parts: Seq<Seq<char>>, i: int) -> nat {
    if 0 <= i < parts.len() {
        segment_number(parts[i])
    } else {
        0
    }
}

/// Segment-wise comparison of two segment lists from index `i` on, the
/// shorter list padded with zeros.
pub open spec fn compare_from(pa: Seq<Seq<char>>, pb: Seq<Seq<char>>, i: int) -> int
    decreases
        (if pa.len() >= pb.len() {
            pa.len()
        } else {
            pb.len()
        }) - i,
{
    if i < 0 || (i >= pa.len() && i >= pb.len()) {
        0
    } else if number_at(pa, i) < number_at(pb, i) {
        -1
    } else if number_at(pa, i) > number_at(pb, i) {
        1
    } else {
        compare_from(pa, pb, i + 1)
    }
}

/// The order of two version strings: -1, 0 or 1.
pub open spec fn compare(a: Seq<char>, b: Seq<char>) -> int {
    compare_from(split(a, '.'), split(b, '.'), 0)
}

/// The version without its local suffix: everything before the first `+`.
pub open spec fn strip_local(v: Seq<char>) -> Seq<char> {
    v.take(find_char(v, '+'))
}

/// A comparison operator of a version constraint.
#[derive(Clone, Copy, Debug, PartialEq, Eq, Structural)]
pub enum Operator {
    Compatible,
    GreaterEq,
    LessEq,
    NotEq,
    Equal,
    Greater,
    Less,
}

/// The operator that a constraint starts with and the number of characters
/// it takes, or `None` when the constraint starts with none of them.
pub open spec fn leading_operator(c: Seq<char>) -> Option<(Operator, int)> {
    if starts_with(c, seq!['~', '=']) {
        Some((Operator::Compatible, 2))
    } else if starts_with(c, seq!['>', '=']) {
        Some((Operator::GreaterEq, 2))
    } else if starts_with(c, seq!['<', '=']) {
        Some((Operator::LessEq, 2))
    } else if starts_with(c, seq!['!', '=']) {
        Some((Operator::NotEq, 2))
    } else if starts_with(c, seq!['=', '=']) {
        Some((Operator::Equal, 2))
    } else if starts_with(c, seq!['>']) {
        Some((Operator::Greater, 1))
    } else if starts_with(c, seq!['<']) {
        Some((Operator::Less, 1))
    } else {
        None
    }
}

/// Whether `installed` is a compatible release of `required`: not older,
/// and, when `required` has a `.`, starting with everything up to and
/// including the last `.` of `required`.
pub open spec fn compatible(installed: Seq<char>, required: Seq<char>) -> bool {
    compare(installed, required) >= 0 && starts_with(
        installed,
        required.take(through_last(required, '.')),
    )
}

/// Whether the installed version (local suffix already stripped) meets the
/// operator against the required version (stripped too).
pub open spec fn operator_holds(op: Operator, installed: Seq<char>, required: Seq<char>) -> bool {
    match op {
        Operator::Compatible => compatible(installed, required),
        Operator::GreaterEq => compare(installed, required) >= 0,
        Operator::LessEq => compare(installed, required) <= 0,
        Operator::NotEq => compare(installed, required) != 0,
        Operator::Equal => if ends_with(required, seq!['.', '*']) {
            starts_with(installed, required.take(required.len() - 2))
        } else {
            compare(installed, required) == 0
        },
        Operator::Greater => compare(installed, required) > 0,
        Operator::Less => compare(installed, required) < 0,
    }
}

/// Whether one clause of a specifier holds of the installed version
/// (local suffix already stripped). An empty clause and a clause that
/// starts with no known operator hold.
pub open spec fn clause_holds(installed: Seq<char>, clause: Seq<char>) -> bool {
    let c = trim(clause);
    match leading_operator(c) {
        Some((op, n)) => c.len() == 0 || operator_holds(
            op,
            installed,
            strip_local(trim(c.skip(n))),
        ),
        None => true,
    }
}

/// Whether every clause of `clauses` holds.
pub open spec fn clauses_hold(installed: Seq<char>, clauses: Seq<Seq<char>>) -> bool {
    forall|i: int| 0 <= i < clauses.len() ==> clause_holds(installed, #[trigger] clauses[i])
}

/// Whether the installed version satisfies the specifier: every
/// comma-separated clause holds of the version without its local suffix.
pub open spec fn satisfies(installed: Seq<char>, specifier: Seq<char>) -> bool {
    clauses_hold(strip_local(installed), split(specifier, ','))
}

// ---------------------------------------------------------------------
// Laws
// ---------------------------------------------------------------------
proof fn lemma_compare_from_flip(pa: Seq<Seq<char>>, pb: Seq<Seq<char>>, i: int)
    ensures
        compare_from(pa, pb, i) == -compare_from(pb, pa, i),
        -1 <= compare_from(pa, pb, i) <= 1,
    decreases
        (if pa.len() >= pb.len() {
            pa.len()
        } else {
            pb.len()
        }) - i,
{
    if !(i < 0 || (i >= pa.len() && i >= pb.len())) && number_at(pa, i) == number_at(pb, i) {
        lemma_compare_from_flip(pa, pb, i + 1);
    }
}

proof fn lemma_compare_from_same(pa: Seq<Seq<char>>, i: int)
    ensures
        compare_from(pa, pa, i) == 0,
    decreases pa.len() - i,
{
    if 0 <= i < pa.len() {
        lemma_compare_from_same(pa, i + 1);
    }
}

spec fn longest(pa: Seq<Seq<char>>, pb: Seq<Seq<char>>, pc: Seq<Seq<char>>) -> int {
    let m = if pa.len() >= pb.len() {
        pa.len()
    } else {
        pb.len()
    };
    if m >= pc.len() {
        m as int
    } else {
        pc.len() as int
    }
}

proof fn lemma_compare_from_trans(
    pa: Seq<Seq<char>>,
    pb: Seq<Seq<char>>,
    pc: Seq<Seq<char>>,
    i: int,
)
    requires
        i >= 0,
    ensures
        compare_from(pa, pb, i) <= 0 && compare_from(pb, pc, i) <= 0 ==> compare_from(pa, pc, i)
            <= 0,
        compare_from(pa, pb, i) < 0 && compare_from(pb, pc, i) <= 0 ==> compare_from(pa, pc, i)
            < 0,
        compare_from(pa, pb, i) <= 0 && compare_from(pb, pc, i) < 0 ==> compare_from(pa, pc, i)
            < 0,
    decreases longest(pa, pb, pc) - i,
{
    lemma_compare_from_flip(pa, pb, i);
    lemma_compare_from_flip(pb, pc, i);
    lemma_compare_from_flip(pa, pc, i);
    if i < longest(pa, pb, pc) {
        lemma_compare_from_trans(pa, pb, pc, i + 1);
        lemma_compare_from_flip(pa, pb, i + 1);
        lemma_compare_from_flip(pb, pc, i + 1);
        lemma_compare_from_flip(pa, pc, i + 1);
    }
}

/// Swapping the two versions negates the order.
pub proof fn lemma_compare_antisymmetric(a: Seq<char>, b: Seq<char>)
    ensures
        compare(a, b) == -compare(b, a),
        -1 <= compare(a, b) <= 1,
{
    lemma_compare_from_flip(split(a, '.'), split(b, '.'), 0);
}

/// Every version string is equal to itself in the order.
pub proof fn lemma_compare_reflexive(a: Seq<char>)
    ensures
        compare(a, a) == 0,
{
    lemma_compare_from_same(split(a, '.'), 0);
}

/// The order is transitive, and a strict step anywhere makes the whole
/// chain strict.
pub proof fn lemma_compare_transitive(a: Seq<char>, b: Seq<char>, c: Seq<char>)
    ensures
        compare(a, b) <= 0 && compare(b, c) <= 0 ==> compare(a, c) <= 0,
        compare(a, b) < 0 && compare(b, c) <= 0 ==> compare(a, c) < 0,
        compare(a, b) <= 0 && compare(b, c) < 0 ==> compare(a, c) < 0,
        compare(a, b) == 0 && compare(b, c) == 0 ==> compare(a, c) == 0,
{
    let pa = split(a, '.');
    let pb = split(b, '.');
    let pc = split(c, '.');
    lemma_compare_from_trans(pa, pb, pc, 0);
    lemma_compare_from_trans(pc, pb, pa, 0);
    lemma_compare_from_flip(pa, pb, 0);
    lemma_compare_from_flip(pb, pc, 0);
    lemma_compare_from_flip(pa, pc, 0);
}

/// Stripping the local suffix twice is the same as stripping it once.
pub proof fn lemma_strip_local_idempotent(v: Seq<char>)
    ensures
        strip_local(strip_local(v)) == strip_local(v),
{
    let cls = CharClass::Only('+');
    lemma_first_index(v, cls, true);
    let s = strip_local(v);
    assert forall|j: int| 0 <= j < s.len() implies cls.has(#[trigger] s[j]) != true by {
        assert(s[j] == v[j]);
    }
    lemma_first_index_is(s, cls, true, s.len() as int);
    assert(s.take(s.len() as int) == s);
}

/// A specifier made of two specifiers joined by a comma is satisfied
/// exactly when both are.
pub proof fn lemma_satisfies_conjunctive(v: Seq<char>, s1: Seq<char>, s2: Seq<char>)
    ensures
        satisfies(v, s1 + seq![','] + s2) == (satisfies(v, s1) && satisfies(v, s2)),
{
    lemma_split_concat(s1, s2, ',');
    let inst = strip_local(v);
    let c1 = split(s1, ',');
    let c2 = split(s2, ',');
    let c = c1 + c2;
    if clauses_hold(inst, c) {
        assert forall|i: int| 0 <= i < c1.len() implies clause_holds(inst, #[trigger] c1[i]) by {
            assert(c[i] == c1[i]);
        }
        assert forall|i: int| 0 <= i < c2.len() implies clause_holds(inst, #[trigger] c2[i]) by {
            assert(c[c1.len() + i] == c2[i]);
        }
    }
    if clauses_hold(inst, c1) && clauses_hold(inst, c2) {
        assert forall|i: int| 0 <= i < c.len() implies clause_holds(inst, #[trigger] c[i]) by {
            if i < c1.len() {
                assert(c[i] == c1[i]);
            } else {
                assert(c[i] == c2[i - c1.len()]);
            }
        }
    }
}

/// An empty specifier is satisfied by every version.
pub proof fn lemma_satisfies_empty(v: Seq<char>)
    ensures
        satisfies(v, Seq::<char>::empty()),
{
    let e = Seq::<char>::empty();
    assert(split(e, ',') =~= seq![e]);
    lemma_first_index(e, CharClass::Whitespace, false);
    lemma_trimmed_end(strip_start(e, CharClass::Whitespace), CharClass::Whitespace);
    assert(trim(e).len() == 0);
}


// ---------------------------------------------------------------------
// Executable functions
// ---------------------------------------------------------------------
/// Exec counterpart of `segment_number`.
pub fn segment_number_of(seg: &Vec<char>) -> (n: u64)
    ensures
        n == segment_number(seg@),
{
    let k = first_index_of(seg, CharClass::Digit, false);
    let d = slice(seg, 0, k);
    proof {
        lemma_first_index(seg@, CharClass::Digit, false);
        assert(d@ == leading_digits(seg@));
        assert forall|j: int| 0 <= j < d@.len() implies CharClass::Digit.has(#[trigger] d@[j])
            != false by {
            assert(d@[j] == seg@[j]);
        }
        lemma_first_index_is(d@, CharClass::Digit, false, d@.len() as int);
    }
    match digits_value_of(&d, u64::MAX) {
        Some(n) => n,
        None => 0,
    }
}

fn number_at_of(parts: &Vec<Vec<char>>, i: usize) -> (n: u64)
    ensures
        n == number_at(views(parts@), i as int),
{
    if i < parts.len() {
        segment_number_of(&parts[i])
    } else {
        0
    }
}

/// The order of two version strings given as characters.
pub fn compare_chars(a: &Vec<char>, b: &Vec<char>) -> (r: i32)
    ensures
        r == compare(a@, b@),
{
    let pa = split_of(a, '.');
    let pb = split_of(b, '.');
    let n = if pa.len() >= pb.len() {
        pa.len()
    } else {
        pb.len()
    };
    let mut i: usize = 0;
    while i < n
        invariant
            i <= n,
            n >= pa.len(),
            n >= pb.len(),
            n == pa.len() || n == pb.len(),
            views(pa@) == split(a@, '.'),
            views(pb@) == split(b@, '.'),
            compare(a@, b@) == compare_from(views(pa@), views(pb@), i as int),
        decreases n - i,
    {
        let va = number_at_of(&pa, i);
        let vb = number_at_of(&pb, i);
        if va < vb {
            return -1;
        }
        if va > vb {
            return 1;
        }
        i += 1;
    }
    0
}

/// Compares two version strings segment by segment: -1, 0 or 1.
///
/// Both are split on `.`; a segment counts as its leading decimal digits
/// (0 when it has none), and the shorter version is padded with zeros.
pub fn compare_versions(a: &str, b: &str) -> (r: i32)
    ensures
        r == compare(a@, b@),
{
    let av = chars_of(a);
    let bv = chars_of(b);
    compare_chars(&av, &bv)
}

/// Exec counterpart of `strip_local` on characters.
pub fn strip_local_chars(v: &Vec<char>) -> (r: Vec<char>)
    ensures
        r@ == strip_local(v@),
{
    let i = first_index_of(v, CharClass::Only('+'), true);
    slice(v, 0, i)
}

/// The version without its local suffix: the part before the first `+`.
pub fn strip_local_version(version: &str) -> (r: &str)
    ensures
        r@ == strip_local(version@),
{
    let v = chars_of(version);
    let i = first_index_of(&v, CharClass::Only('+'), true);
    version.substring_char(0, i)
}

/// Exec counterpart of `leading_operator`.
fn leading_operator_of(c: &Vec<char>) -> (r: Option<(Operator, usize)>)
    ensures
        match r {
            Some((op, n)) => leading_operator(c@) == Some((op, n as int)) && n <= c.len(),
            None => leading_operator(c@).is_none(),
        },
{
    let second_is_eq = c.len() >= 2 && c[1] == '=';
    let f_tilde = c.len() >= 1 && c[0] == '~';
    let f_gt = c.len() >= 1 && c[0] == '>';
    let f_lt = c.len() >= 1 && c[0] == '<';
    let f_bang = c.len() >= 1 && c[0] == '!';
    let f_eq = c.len() >= 1 && c[0] == '=';
    proof {
        lemma_prefix2(c@, '~', '=');
        lemma_prefix2(c@, '>', '=');
        lemma_prefix2(c@, '<', '=');
        lemma_prefix2(c@, '!', '=');
        lemma_prefix2(c@, '=', '=');
        lemma_prefix1(c@, '>');
        lemma_prefix1(c@, '<');
    }
    if f_tilde && second_is_eq {
        Some((Operator::Compatible, 2))
    } else if f_gt && second_is_eq {
        Some((Operator::GreaterEq, 2))
    } else if f_lt && second_is_eq {
        Some((Operator::LessEq, 2))
    } else if f_bang && second_is_eq {
        Some((Operator::NotEq, 2))
    } else if f_eq && second_is_eq {
        Some((Operator::Equal, 2))
    } else if f_gt {
        Some((Operator::Greater, 1))
    } else if f_lt {
        Some((Operator::Less, 1))
    } else {
        None
    }
}

proof fn lemma_prefix2(c: Seq<char>, x: char, y: char)
    ensures
        starts_with(c, seq![x, y]) <==> (c.len() >= 2 && c[0] == x && c[1] == y),
{
    if c.len() >= 2 {
        if c[0] == x && c[1] == y {
            assert(c.take(2) =~= seq![x, y]);
        } else {
            assert(c.take(2)[0] == c[0]);
            assert(c.take(2)[1] == c[1]);
        }
    }
}

proof fn lemma_prefix1(c: Seq<char>, x: char)
    ensures
        starts_with(c, seq![x]) <==> (c.len() >= 1 && c[0] == x),
{
    if c.len() >= 1 {
        if c[0] == x {
            assert(c.take(1) =~= seq![x]);
        } else {
            assert(c.take(1)[0] == c[0]);
        }
    }
}

/// Exec counterpart of `operator_holds`.
pub fn operator_holds_of(op: Operator, installed: &Vec<char>, required: &Vec<char>) -> (r: bool)
    ensures
        r == operator_holds(op, installed@, required@),
{
    match op {
        Operator::Compatible => {
            if compare_chars(installed, required) < 0 {
                return false;
            }
            let e = through_last_of(required, '.');
            let major = slice(required, 0, e);
            has_prefix(installed, &major)
        },
        Operator::GreaterEq => compare_chars(installed, required) >= 0,
        Operator::LessEq => compare_chars(installed, required) <= 0,
        Operator::NotEq => compare_chars(installed, required) != 0,
        Operator::Equal => {
            let n = required.len();
            let wild = n >= 2 && required[n - 2] == '.' && required[n - 1] == '*';
            proof {
                if n >= 2 {
                    let tail = required@.skip(n - 2);
                    assert(tail[0] == required@[n - 2]);
                    assert(tail[1] == required@[n - 1]);
                    if wild {
                        assert(tail =~= seq!['.', '*']);
                    }
                }
            }
            if wild {
                let prefix = slice(required, 0, n - 2);
                has_prefix(installed, &prefix)
            } else {
                compare_chars(installed, required) == 0
            }
        },
        Operator::Greater => compare_chars(installed, required) > 0,
        Operator::Less => compare_chars(installed, required) < 0,
    }
}

/// Exec counterpart of `clause_holds`.
pub fn clause_holds_of(installed: &Vec<char>, clause: &Vec<char>) -> (r: bool)
    ensures
        r == clause_holds(installed@, clause@),
{
    let c = trim_of(clause);
    if c.len() == 0 {
        return true;
    }
    match leading_operator_of(&c) {
        Some((op, n)) => {
            let rest = slice(&c, n, c.len());
            let ver = trim_of(&rest);
            let required = strip_local_chars(&ver);
            operator_holds_of(op, installed, &required)
        },
        None => true,
    }
}

/// Whether the installed version satisfies the specifier, both given as
/// characters.
pub fn satisfies_chars(installed: &Vec<char>, specifier: &Vec<char>) -> (r: bool)
    ensures
        r == satisfies(installed@, specifier@),
{
    let inst = strip_local_chars(installed);
    let clauses = split_of(specifier, ',');
    let mut i: usize = 0;
    while i < clauses.len()
        invariant
            i <= clauses.len(),
            views(clauses@) == split(specifier@, ','),
            inst@ == strip_local(installed@),
            forall|j: int| 0 <= j < i ==> clause_holds(inst@, #[trigger] views(clauses@)[j]),
        decreases clauses.len() - i,
    {
        if !clause_holds_of(&inst, &clauses[i]) {
            assert(views(clauses@)[i as int] == clauses@[i as int]@);
            return false;
        }
        assert(views(clauses@)[i as int] == clauses@[i as int]@);
        i += 1;
    }
    true
}

/// Whether an installed version satisfies a specifier such as
/// `>=1.0,<2.0,!=1.5`.
///
/// The specifier is split on `,` and every clause must hold. A clause is
/// one of `~=`, `>=`, `<=`, `!=`, `==`, `>`, `<` and a version; `==X.*`
/// is a prefix match. Empty clauses and clauses with an unknown operator
/// hold. Local suffixes (`+cu130`) are stripped from both sides before
/// comparing.
pub fn version_satisfies_specifier(installed: &str, specifier: &str) -> (r: bool)
    ensures
        r == satisfies(installed@, specifier@),
{
    let iv = chars_of(installed);
    let sv = chars_of(specifier);
    satisfies_chars(&iv, &sv)
}

} // verus!
