//! Splitting task input of the form `tag:name`.
//!
//! New-task text is split on the first colon: a non-empty left part becomes
//! the tag and the trimmed right part the name; otherwise the whole text is
//! the name and there is no tag. Input whose trimmed name is empty is invalid
//! and rejected by the registry.

use vstd::prelude::*;

verus! {

/// Whitespace recognised by trimming.
pub open spec fn is_space(c: char) -> bool {
    c == ' ' || c == '\t' || c == '\n' || c == '\r'
}

/// Index of the first non-space character at or after `i`, or the length.
pub open spec fn first_nonspace(s: Seq<char>, i: int) -> int
    decreases s.len() - i when 0 <= i <= s.len()
{
    if i < s.len() && is_space(s[i]) {
        first_nonspace(s, i + 1)
    } else {
        i
    }
}

/// End of the last non-space character strictly before `j`, or zero.
pub open spec fn last_nonspace_end(s: Seq<char>, j: int) -> int
    decreases j when 0 <= j <= s.len()
{
    if j > 0 && is_space(s[j - 1]) {
        last_nonspace_end(s, j - 1)
    } else {
        j
    }
}

/// The text without leading and trailing whitespace.
pub open spec fn spec_trim(s: Seq<char>) -> Seq<char> {
    let a = first_nonspace(s, 0);
    let b = last_nonspace_end(s, s.len() as int);
    if a < b {
        s.subrange(a, b)
    } else {
        Seq::empty()
    }
}

/// Index of the first colon at or after `i`, if any.
pub open spec fn find_colon(s: Seq<char>, i: int) -> Option<int>
    decreases s.len() - i when 0 <= i <= s.len()
{
    if i < s.len() {
        if s[i] == ':' {
            Some(i)
        } else {
            find_colon(s, i + 1)
        }
    } else {
        None
    }
}

/// The (tag, name) pair read from new-task text: a colon with a non-empty
/// left part yields that part as the tag and the trimmed right part as the
/// name; otherwise the whole text is the name.
pub open spec fn spec_split_input(s: Seq<char>) -> (Option<Seq<char>>, Seq<char>) {
    match find_colon(s, 0) {
        Some(i) => {
            if i > 0 {
                (Some(s.subrange(0, i)), spec_trim(s.subrange(i + 1, s.len() as int)))
            } else {
                (None, s)
            }
        },
        None => (None, s),
    }
}

/// Input is valid when the name it yields is non-empty once trimmed.
pub open spec fn spec_valid_input(s: Seq<char>) -> bool {
    spec_trim(spec_split_input(s).1).len() > 0
}

fn is_space_char(c: char) -> (r: bool)
    ensures
        r == is_space(c),
{
    c == ' ' || c == '\t' || c == '\n' || c == '\r'
}

fn skip_spaces(s: &str, i: usize, len: usize) -> (r: usize)
    requires
        i <= len,
        len == s@.len(),
    ensures
        r == first_nonspace(s@, i as int),
        i <= r <= len,
    decreases len - i,
{
    if i < len && is_space_char(s.get_char(i)) {
        skip_spaces(s, i + 1, len)
    } else {
        i
    }
}

fn rskip_spaces(s: &str, j: usize, len: usize) -> (r: usize)
    requires
        j <= len,
        len == s@.len(),
    ensures
        r == last_nonspace_end(s@, j as int),
        r <= j,
    decreases j,
{
    if j > 0 && is_space_char(s.get_char(j - 1)) {
        rskip_spaces(s, j - 1, len)
    } else {
        j
    }
}

/// The text without leading and trailing whitespace, as a fresh string.
pub fn trim_str(s: &str) -> (r: String)
    ensures
        r@ == spec_trim(s@),
{
    let len = s.unicode_len();
    let a = skip_spaces(s, 0, len);
    let b = rskip_spaces(s, len, len);
    if a < b {
        s.substring_char(a, b).to_owned()
    } else {
        String::new()
    }
}

fn find_colon_at(s: &str, i: usize, len: usize) -> (r: Option<usize>)
    requires
        i <= len,
        len == s@.len(),
    ensures
        match r {
            Some(k) => find_colon(s@, i as int) == Some(k as int) && i <= k < len,
            None => find_colon(s@, i as int) is None,
        },
    decreases len - i,
{
    if i < len {
        if s.get_char(i) == ':' {
            Some(i)
        } else {
            find_colon_at(s, i + 1, len)
        }
    } else {
        None
    }
}

/// Splits new-task text into its optional tag and its name.
pub fn split_task_input(text: &str) -> (r: (Option<String>, String))
    ensures
        r.1@ == spec_split_input(text@).1,
        r.0 matches Some(t) ==> spec_split_input(text@).0 == Some(t@),
        (r.0 is Some) == (spec_split_input(text@).0 is Some),
{
    let len = text.unicode_len();
    match find_colon_at(text, 0, len) {
        Some(i) => {
            if i > 0 {
                let tag = text.substring_char(0, i).to_owned();
                let rest = text.substring_char(i + 1, len);
                let name = trim_str(rest);
                (Some(tag), name)
            } else {
                (None, text.to_owned())
            }
        },
        None => (None, text.to_owned()),
    }
}

/// Whether new-task text yields a non-empty trimmed name.
pub fn valid_task_input(text: &str) -> (r: bool)
    ensures
        r == spec_valid_input(text@),
{
    let (_tag, name) = split_task_input(text);
    let trimmed = trim_str(name.as_str());
    trimmed.as_str().unicode_len() > 0
}

} // verus!
