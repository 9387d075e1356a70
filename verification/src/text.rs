//! Character classes and whitespace trimming for script lines.

use vstd::prelude::*;
use vstd::string::*;

verus! {

/// ASCII whitespace: space, tab, line feed, form feed, carriage return.
pub open spec fn is_space(c: char) -> bool {
    c == ' ' || c == '\t' || c == '\n' || c == '\u{0c}' || c == '\r'
}

/// Executable test for [`is_space`].
pub fn space_char(c: char) -> (r: bool)
    ensures
        r == is_space(c),
{
    c == ' ' || c == '\t' || c == '\n' || c == '\u{0c}' || c == '\r'
}

/// The first position at or after `i` holding a non-space character, or the
/// length of `s` if spaces run to the end.
pub open spec fn skip_spaces(s: Seq<char>, i: int) -> int
    decreases s.len() - i,
{
    if i < 0 || i >= s.len() {
        s.len() as int
    } else if is_space(s[i]) {
        skip_spaces(s, i + 1)
    } else {
        i
    }
}

/// The position just after the last non-space character strictly before `i`,
/// or `0` if spaces run back to the start.
pub open spec fn rskip_spaces(s: Seq<char>, i: int) -> int
    decreases i,
{
    if i <= 0 || i > s.len() {
        0
    } else if is_space(s[i - 1]) {
        rskip_spaces(s, i - 1)
    } else {
        i
    }
}

/// `s` with leading and trailing whitespace removed.
pub open spec fn trim_spec(s: Seq<char>) -> Seq<char> {
    let a = skip_spaces(s, 0);
    let b = rskip_spaces(s, s.len() as int);
    if a < b {
        s.subrange(a, b)
    } else {
        Seq::empty()
    }
}

proof fn lemma_skip_spaces_prefix(s: Seq<char>, i: int)
    requires
        0 <= i <= s.len(),
        forall|j: int| 0 <= j < i ==> is_space(s[j]),
    ensures
        skip_spaces(s, 0) == skip_spaces(s, i),
    decreases i,
{
    if i > 0 {
        lemma_skip_spaces_prefix(s, i - 1);
    }
}

proof fn lemma_rskip_all_spaces(s: Seq<char>, i: int)
    requires
        0 <= i <= s.len(),
        forall|j: int| 0 <= j < i ==> is_space(s[j]),
    ensures
        rskip_spaces(s, i) == 0,
    decreases i,
{
    if i > 0 {
        lemma_rskip_all_spaces(s, i - 1);
    }
}

/// Remove leading and trailing whitespace from `s`.
pub fn trim(s: &str) -> (r: String)
    ensures
        r@ == trim_spec(s@),
{
    let len = s.unicode_len();
    let mut a: usize = 0;
    while a < len && space_char(s.get_char(a))
        invariant
            0 <= a <= len,
            len == s@.len(),
            skip_spaces(s@, 0) == skip_spaces(s@, a as int),
            forall|j: int| 0 <= j < a ==> is_space(s@[j]),
        decreases len - a,
    {
        a = a + 1;
    }
    assert(skip_spaces(s@, 0) == a as int);
    let mut b: usize = len;
    while b > a && space_char(s.get_char(b - 1))
        invariant
            a <= b <= len,
            len == s@.len(),
            rskip_spaces(s@, len as int) == rskip_spaces(s@, b as int),
        decreases b,
    {
        b = b - 1;
    }
    if a < b {
        assert(rskip_spaces(s@, len as int) == b as int);
        s.substring_char(a, b).to_owned()
    } else {
        proof {
            if a > 0 {
                lemma_rskip_all_spaces(s@, a as int);
                assert(rskip_spaces(s@, b as int) == rskip_spaces(s@, a as int));
            }
            assert(trim_spec(s@) =~= Seq::<char>::empty());
        }
        String::new()
    }
}

} // verus!
