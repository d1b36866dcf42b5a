//! The activity log: one line of text for each action, appended to a
//! file that is cut back when it grows too long.
//!
//! Reading and writing the file, and the time of day, are the caller's
//! part.

use crate::text::{
    append, append_str, chars_of, find_sub_of, lemma_find_sub, lemma_string_views_push, lines,
    lines_of, lowercase, lowercase_of, contains_sub, string_of, string_views, views,
};
use vstd::prelude::*;

verus! {

/// The most lines that the log keeps when it is cut back.
pub const MAX_LINES: usize = 1000;

/// The size of the log file, in bytes, above which it is cut back.
pub const ROTATE_ABOVE: u64 = 100_000;

/// A line of the log: the time, the source in brackets, the action and
/// the details, and a line feed.
pub open spec fn log_line(
    timestamp: Seq<char>,
    source: Seq<char>,
    action: Seq<char>,
    details: Seq<char>,
) -> Seq<char> {
    timestamp + " ["@ + source + "] "@ + action + " "@ + details + "\n"@
}

/// Composes a line of the log. `timestamp` is the local time, as
/// `YYYY-MM-DD HH:MM:SS`; `source` is `cli` or `mcp`.
pub fn format_log_line(timestamp: &str, source: &str, action: &str, details: &str) -> (r: String)
    ensures
        r@ == log_line(timestamp@, source@, action@, details@),
{
    let mut out = chars_of(timestamp);
    append_str(&mut out, " [");
    append_str(&mut out, source);
    append_str(&mut out, "] ");
    append_str(&mut out, action);
    append_str(&mut out, " ");
    append_str(&mut out, details);
    append_str(&mut out, "\n");
    assert(out@ =~= log_line(timestamp@, source@, action@, details@));
    string_of(&out)
}

/// Composes a line of the log for an action that happens now, with the
/// local time of the machine.
pub fn new_log_line(source: &str, action: &str, details: &str) -> (r: String)
    ensures
        exists|timestamp: Seq<char>| r@ == log_line(timestamp, source@, action@, details@),
{
    let now = crate::clock::local_now_text();
    format_log_line(now.as_str(), source, action, details)
}

/// Whether a log file of `size` bytes is to be cut back.
pub fn needs_rotation(size: u64) -> (b: bool)
    ensures
        b == (size > ROTATE_ABOVE),
{
    size > ROTATE_ABOVE
}

/// The lines from `from` up to, not including, `to`, each with a line
/// feed after it.
pub open spec fn written(ls: Seq<Seq<char>>, from: int, to: int) -> Seq<char>
    decreases to - from,
{
    if to <= from {
        Seq::empty()
    } else {
        written(ls, from, to - 1) + ls[to - 1] + "\n"@
    }
}

/// What a log is rewritten to when it is cut back: its last `MAX_LINES`
/// lines. A log of at most so many lines is not rewritten.
pub open spec fn rotated(content: Seq<char>) -> Option<Seq<char>> {
    let ls = lines(content);
    if ls.len() > MAX_LINES {
        Some(written(ls, ls.len() - MAX_LINES, ls.len() as int))
    } else {
        None
    }
}

/// Cuts a log back to its last `MAX_LINES` lines. Returns the new
/// content, or `None` where the log is short enough as it is.
pub fn rotate(content: &str) -> (r: Option<String>)
    ensures
        crate::text::opt_str_view(r) == rotated(content@),
{
    let ls = lines_of(&chars_of(content));
    if ls.len() <= MAX_LINES {
        return None;
    }
    let from = ls.len() - MAX_LINES;
    let mut out: Vec<char> = Vec::new();
    let mut i: usize = from;
    while i < ls.len()
        invariant
            from <= i <= ls.len(),
            out@ == written(views(ls@), from as int, i as int),
        decreases ls.len() - i,
    {
        assert(views(ls@)[i as int] == ls@[i as int]@);
        append(&mut out, &ls[i]);
        append_str(&mut out, "\n");
        i += 1;
        assert(out@ =~= written(views(ls@), from as int, i as int));
    }
    Some(string_of(&out))
}

/// Those of the first `n` lines that hold `keyword`, without regard to
/// the case of letters; all of them where there is no keyword.
pub open spec fn holding(ls: Seq<Seq<char>>, keyword: Option<Seq<char>>, n: int) -> Seq<Seq<char>>
    decreases n,
{
    if n <= 0 {
        Seq::empty()
    } else if keyword.is_none() || contains_sub(lowercase(ls[n - 1]), lowercase(keyword.unwrap())) {
        holding(ls, keyword, n - 1).push(ls[n - 1])
    } else {
        holding(ls, keyword, n - 1)
    }
}

/// The last `n` of the rows; all of them where there are not more.
pub open spec fn tail(rows: Seq<Seq<char>>, n: nat) -> Seq<Seq<char>> {
    if rows.len() > n {
        rows.skip(rows.len() - n)
    } else {
        rows
    }
}

/// The last `n` lines of the log that hold the keyword.
pub open spec fn log_tail(content: Seq<char>, n: nat, keyword: Option<Seq<char>>) -> Seq<Seq<char>> {
    tail(holding(lines(content), keyword, lines(content).len() as int), n)
}

/// Reads the last `n` lines of a log, of the lines that hold `filter`
/// where a filter is given.
pub fn read_log(content: &str, n: usize, filter: Option<&str>) -> (r: Vec<String>)
    ensures
        string_views(r@) == log_tail(
            content@,
            n as nat,
            match filter {
                Some(f) => Some(f@),
                None => None,
            },
        ),
{
    let ls = lines_of(&chars_of(content));
    let ghost keyword = match filter {
        Some(f) => Some(f@),
        None => None,
    };
    let lowered = match filter {
        Some(f) => Some(lowercase_of(&chars_of(f))),
        None => None,
    };
    let mut kept: Vec<String> = Vec::new();
    let mut i: usize = 0;
    proof {
        assert(string_views(kept@) =~= holding(views(ls@), keyword, 0));
    }
    while i < ls.len()
        invariant
            i <= ls.len(),
            keyword == (match filter {
                Some(f) => Some(f@),
                None => None,
            }),
            crate::text::opt_view(lowered) == (match keyword {
                Some(k) => Some(lowercase(k)),
                None => None,
            }),
            string_views(kept@) == holding(views(ls@), keyword, i as int),
        decreases ls.len() - i,
    {
        assert(views(ls@)[i as int] == ls@[i as int]@);
        let keep = match &lowered {
            Some(k) => {
                let line = lowercase_of(&ls[i]);
                let found = find_sub_of(&line, k);
                proof {
                    lemma_find_sub(line@, k@);
                }
                found.is_some()
            },
            None => true,
        };
        if keep {
            let s = string_of(&ls[i]);
            proof {
                lemma_string_views_push(kept@, s);
            }
            kept.push(s);
        }
        i += 1;
    }
    if kept.len() <= n {
        return kept;
    }
    let from = kept.len() - n;
    let mut out: Vec<String> = Vec::new();
    let mut j: usize = from;
    while j < kept.len()
        invariant
            from <= j <= kept.len(),
            out.len() == j - from,
            forall|k: int| 0 <= k < out.len() ==> (#[trigger] out@[k])@ == kept@[from + k]@,
        decreases kept.len() - j,
    {
        out.push(kept[j].clone());
        j += 1;
    }
    assert(string_views(out@) =~= string_views(kept@).skip(kept.len() - n));
    out
}

} // verus!
