//! Template strings and the PyTorch wheel index.

use crate::text::{
    chars_of, find_char, first_index_of, slice, split, split_of, string_of, views, CharClass,
};
use vstd::prelude::*;

verus! {

/// One template of a template string: a name and a version.
#[derive(Clone, Debug)]
pub struct TemplatePart {
    pub name: String,
    pub version: String,
}

/// The name in one `name:version` part: what stands before the first `:`.
pub open spec fn part_name(part: Seq<char>) -> Seq<char> {
    part.take(find_char(part, ':'))
}

/// The version in one `name:version` part: what stands after the first
/// `:`, or `latest` where there is no `:`.
pub open spec fn part_version(part: Seq<char>) -> Seq<char> {
    if find_char(part, ':') < part.len() {
        part.skip(find_char(part, ':') + 1)
    } else {
        "latest"@
    }
}

/// Parses a template string, `name:version|name:version`: one part for
/// each piece between `|`, in order. A part without version has the
/// version `latest`.
pub fn parse_template_string(template_str: &str) -> (r: Vec<TemplatePart>)
    ensures
        r@.len() == split(template_str@, '|').len(),
        forall|i: int|
            0 <= i < r@.len() ==> (#[trigger] r@[i]).name@ == part_name(
                split(template_str@, '|')[i],
            ) && r@[i].version@ == part_version(split(template_str@, '|')[i]),
{
    let pieces = split_of(&chars_of(template_str), '|');
    let mut r: Vec<TemplatePart> = Vec::new();
    let mut i: usize = 0;
    while i < pieces.len()
        invariant
            i <= pieces.len(),
            r@.len() == i,
            views(pieces@) == split(template_str@, '|'),
            forall|j: int|
                0 <= j < i ==> (#[trigger] r@[j]).name@ == part_name(views(pieces@)[j])
                    && r@[j].version@ == part_version(views(pieces@)[j]),
        decreases pieces.len() - i,
    {
        let piece = &pieces[i];
        assert(views(pieces@)[i as int] == piece@);
        let k = first_index_of(piece, CharClass::Only(':'), true);
        let name = string_of(&slice(piece, 0, k));
        let version = if k < piece.len() {
            string_of(&slice(piece, k + 1, piece.len()))
        } else {
            string_of(&chars_of("latest"))
        };
        r.push(TemplatePart { name, version });
        i += 1;
    }
    r
}

/// The address of the PyTorch wheel index for a CUDA version, for the
/// versions that have one.
pub open spec fn torch_index(cuda_version: Seq<char>) -> Option<Seq<char>> {
    if cuda_version == "11.8"@ {
        Some("https://download.pytorch.org/whl/cu118"@)
    } else if cuda_version == "12.1"@ {
        Some("https://download.pytorch.org/whl/cu121"@)
    } else if cuda_version == "12.4"@ {
        Some("https://download.pytorch.org/whl/cu124"@)
    } else if cuda_version == "12.8"@ {
        Some("https://download.pytorch.org/whl/cu128"@)
    } else if cuda_version == "13.0"@ {
        Some("https://download.pytorch.org/whl/cu130"@)
    } else {
        None
    }
}

/// Returns the PyTorch wheel index URL for a CUDA version: one of 11.8,
/// 12.1, 12.4, 12.8 and 13.0 has one.
pub fn get_torch_index_url(cuda_version: &str) -> (r: Option<&'static str>)
    ensures
        match r {
            Some(u) => torch_index(cuda_version@) == Some(u@),
            None => torch_index(cuda_version@).is_none(),
        },
        r.is_some() <==> (cuda_version@ == "11.8"@ || cuda_version@ == "12.1"@ || cuda_version@
            == "12.4"@ || cuda_version@ == "12.8"@ || cuda_version@ == "13.0"@),
{
    let v = chars_of(cuda_version);
    if crate::text::same_str(&v, "11.8") {
        Some("https://download.pytorch.org/whl/cu118")
    } else if crate::text::same_str(&v, "12.1") {
        Some("https://download.pytorch.org/whl/cu121")
    } else if crate::text::same_str(&v, "12.4") {
        Some("https://download.pytorch.org/whl/cu124")
    } else if crate::text::same_str(&v, "12.8") {
        Some("https://download.pytorch.org/whl/cu128")
    } else if crate::text::same_str(&v, "13.0") {
        Some("https://download.pytorch.org/whl/cu130")
    } else {
        None
    }
}

} // verus!
