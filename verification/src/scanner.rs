//! Directive scanner: detects a voice-switch directive anchored at the
//! start of a line, such as `[en-US-GuyNeural]`.

use vstd::prelude::*;
use vstd::string::*;

verus! {

/// A character that may appear inside a directive's identifier: a letter,
/// a digit, an underscore or a hyphen.
pub open spec fn is_ident_char(c: char) -> bool {
    ('a' as u32 <= c as u32 && c as u32 <= 'z' as u32) || ('A' as u32 <= c as u32 && c as u32
        <= 'Z' as u32) || ('0' as u32 <= c as u32 && c as u32 <= '9' as u32) || c == '_' || c == '-'
}

/// Executable test for [`is_ident_char`].
pub fn ident_char(c: char) -> (r: bool)
    ensures
        r == is_ident_char(c),
{
    let u = c as u32;
    ('a' as u32 <= u && u <= 'z' as u32) || ('A' as u32 <= u && u <= 'Z' as u32) || ('0' as u32 <= u
        && u <= '9' as u32) || c == '_' || c == '-'
}

/// The first position at or after `i` holding a non-identifier character,
/// or the length of `s` if identifier characters run to the end.
pub open spec fn ident_run_end(s: Seq<char>, i: int) -> int
    decreases s.len() - i,
{
    if i < 0 || i >= s.len() {
        s.len() as int
    } else if is_ident_char(s[i]) {
        ident_run_end(s, i + 1)
    } else {
        i
    }
}

/// Whether `line` begins, at position zero, with a bracket-enclosed
/// identifier of at least one identifier character. A bracketed identifier
/// anywhere else in the line is not a directive.
pub open spec fn has_directive(line: Seq<char>) -> bool {
    &&& line.len() > 0
    &&& line[0] == '['
    &&& ident_run_end(line, 1) > 1
    &&& ident_run_end(line, 1) < line.len()
    &&& line[ident_run_end(line, 1)] == ']'
}

/// The identifier of the directive at the start of `line`, brackets
/// stripped.
pub open spec fn directive_voice(line: Seq<char>) -> Seq<char>
    recommends
        has_directive(line),
{
    line.subrange(1, ident_run_end(line, 1))
}

/// `line` with the directive at its start removed.
pub open spec fn directive_rest(line: Seq<char>) -> Seq<char>
    recommends
        has_directive(line),
{
    line.subrange(ident_run_end(line, 1) + 1, line.len() as int)
}

/// Scan `line` for a directive anchored at position zero. On a match,
/// return the identifier with brackets stripped together with the rest of
/// the line after the directive; otherwise report that no directive is
/// present. Pure: no state is read or changed.
pub fn scan_directive(line: &str) -> (r: Option<(String, String)>)
    ensures
        match r {
            Some(found) => {
                &&& has_directive(line@)
                &&& found.0@ == directive_voice(line@)
                &&& found.1@ == directive_rest(line@)
            },
            None => !has_directive(line@),
        },
{
    let len = line.unicode_len();
    if len == 0 || line.get_char(0) != '[' {
        return None;
    }
    let mut i: usize = 1;
    while i < len && ident_char(line.get_char(i))
        invariant
            1 <= i <= len,
            len == line@.len(),
            ident_run_end(line@, 1) == ident_run_end(line@, i as int),
        decreases len - i,
    {
        i = i + 1;
    }
    assert(ident_run_end(line@, 1) == i as int);
    if i == 1 {
        return None;
    }
    if i == len || line.get_char(i) != ']' {
        return None;
    }
    let voice = line.substring_char(1, i).to_owned();
    let rest = line.substring_char(i + 1, len).to_owned();
    Some((voice, rest))
}

} // verus!
