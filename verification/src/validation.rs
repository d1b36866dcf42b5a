//! Validation of names, version strings and paths that come from outside.

use crate::text::{
    append, append_str, chars_of, contains_char, contains_str, contains_sub, decimal,
    decimal_of, has_char, parse_unsigned, parse_unsigned_of, split, split_of, string_of, trim,
    trim_of, views,
};
use vstd::prelude::*;

verus! {

/// The rule that a name breaks.
#[derive(Clone, Copy, Debug, PartialEq, Eq, Structural)]
pub enum NameFault {
    /// Nothing is left once white space is trimmed.
    Empty,
    /// More than 128 characters.
    TooLong,
    /// Holds `/`, `\` or `..`.
    PathChars,
    /// Holds a shell metacharacter.
    Metachar,
    /// Starts with a dot.
    LeadingDot,
}

/// The longest name that is accepted, in characters.
pub const MAX_NAME_LEN: usize = 128;

/// Whether `c` is a shell metacharacter: one of
/// ``; | & $ ` ( ) < > " '``, a line feed, a carriage return or NUL.
pub open spec fn is_metachar(c: char) -> bool {
    c == ';' || c == '|' || c == '&' || c == '$' || c == '`' || c == '(' || c == ')' || c == '<'
        || c == '>' || c == '"' || c == '\'' || c == '\n' || c == '\r' || c == '\0'
}

/// Whether some character of `t` is a shell metacharacter.
pub open spec fn has_metachar(t: Seq<char>) -> bool {
    exists|i: int| 0 <= i < t.len() && is_metachar(#[trigger] t[i])
}

/// The first rule that the trimmed name `t` breaks, in the order in which
/// the rules are checked; `None` for a name that keeps them all.
pub open spec fn name_fault(t: Seq<char>) -> Option<NameFault> {
    if t.len() == 0 {
        Some(NameFault::Empty)
    } else if t.len() > MAX_NAME_LEN {
        Some(NameFault::TooLong)
    } else if has_char(t, '/') || has_char(t, '\\') || contains_sub(t, ".."@) {
        Some(NameFault::PathChars)
    } else if has_metachar(t) {
        Some(NameFault::Metachar)
    } else if t[0] == '.' {
        Some(NameFault::LeadingDot)
    } else {
        None
    }
}

/// Whether a name is accepted: trimmed of white space it is not empty,
/// has at most 128 characters, holds no `/`, `\`, `..` or shell
/// metacharacter, and does not start with a dot.
pub open spec fn valid_name(name: Seq<char>) -> bool {
    let t = trim(name);
    &&& t.len() > 0
    &&& t.len() <= MAX_NAME_LEN
    &&& !has_char(t, '/')
    &&& !has_char(t, '\\')
    &&& !contains_sub(t, ".."@)
    &&& !has_metachar(t)
    &&& t[0] != '.'
}

/// A name is accepted exactly when it breaks no rule.
pub proof fn lemma_valid_name_iff_no_fault(name: Seq<char>)
    ensures
        valid_name(name) <==> name_fault(trim(name)).is_none(),
{
}

fn metachar(c: char) -> (b: bool)
    ensures
        b == is_metachar(c),
{
    c == ';' || c == '|' || c == '&' || c == '$' || c == '`' || c == '(' || c == ')' || c == '<'
        || c == '>' || c == '"' || c == '\'' || c == '\n' || c == '\r' || c == '\0'
}

fn any_metachar(t: &Vec<char>) -> (b: bool)
    ensures
        b == has_metachar(t@),
{
    let mut i: usize = 0;
    while i < t.len()
        invariant
            i <= t.len(),
            forall|j: int| 0 <= j < i ==> !is_metachar(#[trigger] t@[j]),
        decreases t.len() - i,
    {
        if metachar(t[i]) {
            return true;
        }
        i += 1;
    }
    false
}

/// Exec counterpart of `name_fault`, on a name that is already trimmed.
pub fn name_fault_of(t: &Vec<char>) -> (r: Option<NameFault>)
    ensures
        r == name_fault(t@),
{
    if t.len() == 0 {
        Some(NameFault::Empty)
    } else if t.len() > MAX_NAME_LEN {
        Some(NameFault::TooLong)
    } else if contains_char(t, '/') || contains_char(t, '\\') || contains_str(t, "..") {
        Some(NameFault::PathChars)
    } else if any_metachar(t) {
        Some(NameFault::Metachar)
    } else if t[0] == '.' {
        Some(NameFault::LeadingDot)
    } else {
        None
    }
}

/// What `validate_name` says of a name that breaks the rule `f`, after
/// the kind of thing that is named.
pub open spec fn name_fault_text(f: NameFault) -> Seq<char> {
    match f {
        NameFault::Empty => " name cannot be empty"@,
        NameFault::TooLong => " name is too long (max 128 characters)"@,
        NameFault::PathChars => " name cannot contain path characters"@,
        NameFault::Metachar => " name contains invalid characters"@,
        NameFault::LeadingDot => " name cannot start with a dot"@,
    }
}

fn name_fault_text_of(f: NameFault) -> (s: &'static str)
    ensures
        s@ == name_fault_text(f),
{
    match f {
        NameFault::Empty => " name cannot be empty",
        NameFault::TooLong => " name is too long (max 128 characters)",
        NameFault::PathChars => " name cannot contain path characters",
        NameFault::Metachar => " name contains invalid characters",
        NameFault::LeadingDot => " name cannot start with a dot",
    }
}

/// Validates a name for an environment or a template.
///
/// `kind` says what is named (`Environment`, `Template`) and starts the
/// error message. The name is accepted exactly when `valid_name` holds of
/// it; otherwise the message names the first rule that it breaks.
pub fn validate_name(name: &str, kind: &str) -> (r: Result<(), String>)
    ensures
        r.is_ok() <==> valid_name(name@),
        match r {
            Ok(_) => name_fault(trim(name@)).is_none(),
            Err(msg) => name_fault(trim(name@)) matches Some(f) && msg@ == kind@
                + name_fault_text(f),
        },
{
    let t = trim_of(&chars_of(name));
    match name_fault_of(&t) {
        None => Ok(()),
        Some(f) => {
            let mut msg = chars_of(kind);
            append_str(&mut msg, name_fault_text_of(f));
            Err(string_of(&msg))
        },
    }
}

/// Why a Python version string is refused.
#[derive(Clone, Copy, Debug, PartialEq, Eq, Structural)]
pub enum PythonVersionFault {
    /// More than three dot-separated components.
    Format,
    /// The component at this index is no unsigned 32-bit decimal number.
    Component(usize),
}

/// The index of the first component from `i` on that is no unsigned
/// 32-bit number, or `parts.len()`.
pub open spec fn first_bad_component(parts: Seq<Seq<char>>, i: int) -> int
    decreases parts.len() - i,
{
    if i < 0 || i >= parts.len() {
        parts.len() as int
    } else if parse_unsigned(parts[i], u32::MAX as nat).is_none() {
        i
    } else {
        first_bad_component(parts, i + 1)
    }
}

/// The reason for which a Python version string is refused, if it is: it
/// has more than three components, or else its first component that is no
/// number.
pub open spec fn python_version_fault(version: Seq<char>) -> Option<PythonVersionFault> {
    let parts = split(version, '.');
    if parts.len() > 3 {
        Some(PythonVersionFault::Format)
    } else if first_bad_component(parts, 0) < parts.len() {
        Some(PythonVersionFault::Component(first_bad_component(parts, 0) as usize))
    } else {
        None
    }
}

/// The message for a refused Python version string.
pub open spec fn python_version_fault_text(
    version: Seq<char>,
    f: PythonVersionFault,
) -> Seq<char> {
    match f {
        PythonVersionFault::Format => "Invalid Python version format (use X.Y or X.Y.Z)"@,
        PythonVersionFault::Component(i) => "Invalid Python version component: "@ + split(
            version,
            '.',
        )[i as int],
    }
}

/// Validates a Python version string such as `3.12`, `3.11.4` or `3`: one
/// to three dot-separated unsigned numbers.
pub fn validate_python_version(version: &str) -> (r: Result<(), String>)
    ensures
        r.is_ok() <==> python_version_fault(version@).is_none(),
        r matches Err(msg) ==> python_version_fault(version@) matches Some(f) && msg@
            == python_version_fault_text(version@, f),
{
    let parts = split_of(&chars_of(version), '.');
    if parts.len() > 3 {
        return Err(string_of(&chars_of("Invalid Python version format (use X.Y or X.Y.Z)")));
    }
    let mut i: usize = 0;
    while i < parts.len()
        invariant
            i <= parts.len() <= 3,
            views(parts@) == split(version@, '.'),
            first_bad_component(views(parts@), 0) == first_bad_component(views(parts@), i as int),
        decreases parts.len() - i,
    {
        assert(views(parts@)[i as int] == parts@[i as int]@);
        if parse_unsigned_of(&parts[i], u32::MAX as u64).is_none() {
            let mut msg = chars_of("Invalid Python version component: ");
            append(&mut msg, &parts[i]);
            return Err(string_of(&msg));
        }
        i += 1;
    }
    Ok(())
}

/// Why a CUDA version string is refused.
#[derive(Clone, Copy, Debug, PartialEq, Eq, Structural)]
pub enum CudaVersionFault {
    /// Not exactly two dot-separated components.
    Format,
    /// The major component is no unsigned 32-bit decimal number.
    MajorNotNumber,
    /// The minor component is no unsigned 32-bit decimal number.
    MinorNotNumber,
    /// The major version is outside 10 to 15.
    MajorRange(u32),
    /// The minor version is above 9.
    MinorRange(u32),
}

/// The reason for which a CUDA version string is refused, if it is. The
/// string is accepted when it is `X.Y` with `X` from 10 to 15 and `Y` from
/// 0 to 9.
pub open spec fn cuda_version_fault(version: Seq<char>) -> Option<CudaVersionFault> {
    let parts = split(version, '.');
    if parts.len() != 2 {
        Some(CudaVersionFault::Format)
    } else {
        match parse_unsigned(parts[0], u32::MAX as nat) {
            None => Some(CudaVersionFault::MajorNotNumber),
            Some(major) => match parse_unsigned(parts[1], u32::MAX as nat) {
                None => Some(CudaVersionFault::MinorNotNumber),
                Some(minor) => if !(10 <= major <= 15) {
                    Some(CudaVersionFault::MajorRange(major as u32))
                } else if minor > 9 {
                    Some(CudaVersionFault::MinorRange(minor as u32))
                } else {
                    None
                },
            },
        }
    }
}

/// The message for a refused CUDA version string.
pub open spec fn cuda_version_fault_text(f: CudaVersionFault) -> Seq<char> {
    match f {
        CudaVersionFault::Format => "Invalid CUDA version format (use X.Y, e.g., 12.6)"@,
        CudaVersionFault::MajorNotNumber => "Invalid CUDA major version"@,
        CudaVersionFault::MinorNotNumber => "Invalid CUDA minor version"@,
        CudaVersionFault::MajorRange(major) => "Unsupported CUDA major version: "@ + decimal(
            major as nat,
        ) + " (expected 10-15)"@,
        CudaVersionFault::MinorRange(minor) => "Invalid CUDA minor version: "@ + decimal(
            minor as nat,
        ),
    }
}

/// Validates a CUDA version string such as `12.6`, `13.0` or `11.8`.
pub fn validate_cuda_version(version: &str) -> (r: Result<(), String>)
    ensures
        r.is_ok() <==> cuda_version_fault(version@).is_none(),
        r matches Err(msg) ==> cuda_version_fault(version@) matches Some(f) && msg@
            == cuda_version_fault_text(f),
{
    let parts = split_of(&chars_of(version), '.');
    if parts.len() != 2 {
        return Err(string_of(&chars_of("Invalid CUDA version format (use X.Y, e.g., 12.6)")));
    }
    assert(views(parts@)[0] == parts@[0]@);
    assert(views(parts@)[1] == parts@[1]@);
    let major = match parse_unsigned_of(&parts[0], u32::MAX as u64) {
        Some(n) => n,
        None => {
            return Err(string_of(&chars_of("Invalid CUDA major version")));
        },
    };
    let minor = match parse_unsigned_of(&parts[1], u32::MAX as u64) {
        Some(n) => n,
        None => {
            return Err(string_of(&chars_of("Invalid CUDA minor version")));
        },
    };
    if major < 10 || major > 15 {
        let mut msg = chars_of("Unsupported CUDA major version: ");
        append(&mut msg, &decimal_of(major));
        append_str(&mut msg, " (expected 10-15)");
        return Err(string_of(&msg));
    }
    if minor > 9 {
        let mut msg = chars_of("Invalid CUDA minor version: ");
        append(&mut msg, &decimal_of(minor));
        return Err(string_of(&msg));
    }
    Ok(())
}

/// Why a path is refused.
#[derive(Clone, Copy, Debug, PartialEq, Eq, Structural)]
pub enum PathFault {
    /// The path holds a NUL character.
    NulByte,
    /// The path had to exist and does not.
    Missing,
}

/// The reason for which a path is refused, if it is. `exists` says
/// whether something is at the path.
pub open spec fn path_fault(path: Seq<char>, exists: bool, must_exist: bool) -> Option<PathFault> {
    if has_char(path, '\0') {
        Some(PathFault::NulByte)
    } else if must_exist && !exists {
        Some(PathFault::Missing)
    } else {
        None
    }
}

/// Validates a file path: it holds no NUL and, where `must_exist` is set,
/// it exists. The caller looks at the file system and passes what it
/// found as `exists`.
pub fn validate_path(path: &str, exists: bool, must_exist: bool) -> (r: Result<(), String>)
    ensures
        r.is_ok() <==> path_fault(path@, exists, must_exist).is_none(),
        r matches Err(msg) ==> match path_fault(path@, exists, must_exist) {
            Some(PathFault::NulByte) => msg@ == "Path contains null bytes"@,
            Some(PathFault::Missing) => msg@ == "Path does not exist: "@ + path@,
            None => false,
        },
{
    let p = chars_of(path);
    if contains_char(&p, '\0') {
        return Err(string_of(&chars_of("Path contains null bytes")));
    }
    if must_exist && !exists {
        let mut msg = chars_of("Path does not exist: ");
        append(&mut msg, &p);
        return Err(string_of(&msg));
    }
    Ok(())
}

} // verus!
