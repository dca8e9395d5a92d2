use vstd::prelude::*;

verus! {

/// A character allowed in registry names, policy keys and stage names:
/// an ASCII letter or digit, `_`, `-` or `.`.
pub open spec fn is_name_char(c: char) -> bool {
    ('a' <= c && c <= 'z') || ('A' <= c && c <= 'Z') || ('0' <= c && c <= '9') || c == '_'
        || c == '-' || c == '.'
}

/// A non-empty text made of name characters only.
pub open spec fn is_name_text(s: Seq<char>) -> bool {
    s.len() > 0 && forall|i: int| 0 <= i < s.len() ==> is_name_char(#[trigger] s[i])
}

fn name_char(c: char) -> (r: bool)
    ensures
        r == is_name_char(c),
{
    ('a' <= c && c <= 'z') || ('A' <= c && c <= 'Z') || ('0' <= c && c <= '9') || c == '_'
        || c == '-' || c == '.'
}

fn name_text(name: &str) -> (r: bool)
    ensures
        r == is_name_text(name@),
{
    if name.is_empty() {
        return false;
    }
    let mut all_ok = true;
    for c in it: name.chars()
        invariant
            it.seq() == name@,
            all_ok == (forall|i: int| 0 <= i < it.index() ==> is_name_char(#[trigger] name@[i])),
    {
        if !name_char(c) {
            all_ok = false;
        }
    }
    all_ok
}

/// Whether `name` is a valid policy key: non-empty, made of ASCII letters and digits,
/// `_`, `-` and `.`.
pub fn is_valid_key(name: &str) -> (r: bool)
    ensures
        r == is_name_text(name@),
{
    name_text(name)
}

/// Whether `name` is a valid name for a registered pass or pipeline: non-empty, made of
/// ASCII letters and digits, `_`, `-` and `.`.
pub fn is_valid_registry_name(name: &str) -> (r: bool)
    ensures
        r == is_name_text(name@),
{
    name_text(name)
}

/// Whether `name` is a valid conversion edge, stage or pipeline name: non-empty, made of
/// ASCII letters and digits, `_`, `-` and `.`.
pub fn valid_name(name: &str) -> (r: bool)
    ensures
        r == is_name_text(name@),
{
    name_text(name)
}

} // verus!
