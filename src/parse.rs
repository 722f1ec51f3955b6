use vstd::prelude::*;
use crate::error::ConSertError;
use crate::text::str_eq;

verus! {

/// `needle` occurs in `s` at position `i`.
pub open spec fn occurs_at(s: Seq<char>, needle: Seq<char>, i: int) -> bool {
    0 <= i && i + needle.len() <= s.len() && s.subrange(i, i + needle.len()) == needle
}

/// `needle` occurs somewhere in `s`.
pub open spec fn occurs_in(s: Seq<char>, needle: Seq<char>) -> bool {
    exists|i: int| #[trigger] occurs_at(s, needle, i)
}

pub(crate) fn contains_text(s: &str, needle: &str) -> (r: bool)
    ensures
        r == occurs_in(s@, needle@),
{
    let n = s.unicode_len();
    let m = needle.unicode_len();
    if m > n {
        return false;
    }
    if m == 0 {
        assert(s@.subrange(0, 0) =~= needle@);
        assert(occurs_at(s@, needle@, 0));
        return true;
    }
    let mut i: usize = 0;
    while i < n - m + 1
        invariant
            n == s@.len(),
            m == needle@.len(),
            1 <= m <= n,
            i <= n - m + 1,
            forall|k: int| 0 <= k < i ==> !#[trigger] occurs_at(s@, needle@, k),
        decreases n - m + 1 - i,
    {
        if str_eq(s.substring_char(i, i + m), needle) {
            assert(occurs_at(s@, needle@, i as int));
            return true;
        }
        i = i + 1;
    }
    false
}

/// The comparison operators of numeric dimensions.
pub open spec fn operators() -> Seq<Seq<char>> {
    seq!["<="@, ">="@, "<"@, ">"@, "bound to"@]
}

/// A dimension text is numeric when it holds a comparison operator.
pub fn is_numeric_dimension(text: &str) -> (r: bool)
    ensures
        r == exists|k: int| 0 <= k < operators().len() && occurs_in(text@, #[trigger] operators()[k]),
{
    let r = contains_text(text, "<=") || contains_text(text, ">=") || contains_text(text, "<")
        || contains_text(text, ">") || contains_text(text, "bound to");
    proof {
        if r {
            if occurs_in(text@, "<="@) {
                assert(occurs_in(text@, operators()[0]));
            } else if occurs_in(text@, ">="@) {
                assert(occurs_in(text@, operators()[1]));
            } else if occurs_in(text@, "<"@) {
                assert(occurs_in(text@, operators()[2]));
            } else if occurs_in(text@, ">"@) {
                assert(occurs_in(text@, operators()[3]));
            } else {
                assert(occurs_in(text@, operators()[4]));
            }
        } else {
            assert forall|k: int| 0 <= k < operators().len() implies !occurs_in(
                text@,
                #[trigger] operators()[k],
            ) by {
                if k == 0 {
                    assert(operators()[0] == "<="@);
                } else if k == 1 {
                    assert(operators()[1] == ">="@);
                } else if k == 2 {
                    assert(operators()[2] == "<"@);
                } else if k == 3 {
                    assert(operators()[3] == ">"@);
                } else {
                    assert(operators()[4] == "bound to"@);
                }
            }
        }
    }
    r
}

/// The position of the first `c` in `s` at or after `from`, else the length
/// of `s`.
pub open spec fn next_index_of(s: Seq<char>, c: char, from: int) -> int
    decreases s.len() - from,
{
    if from >= s.len() {
        s.len() as int
    } else if s[from] == c {
        from
    } else {
        next_index_of(s, c, from + 1)
    }
}

fn find_char(s: &str, c: char, from: usize) -> (r: usize)
    requires
        from <= s@.len(),
    ensures
        r == next_index_of(s@, c, from as int),
        from <= r <= s@.len(),
{
    let n = s.unicode_len();
    let mut i = from;
    while i < n
        invariant
            n == s@.len(),
            from <= i <= n,
            next_index_of(s@, c, from as int) == next_index_of(s@, c, i as int),
        decreases n - i,
    {
        if s.get_char(i) == c {
            return i;
        }
        i = i + 1;
    }
    i
}

/// Splits a dimension text `<dimension>:<ASIL>` at its colons: the part
/// before the first colon, and the part after it up to the next colon, or
/// `ASIL UNKNOWN` when there is no colon.
pub fn split_asil(dimension: &str) -> (r: Result<(String, String), ConSertError>)
    ensures
        r matches Ok((part, asil)) && {
            let s = dimension@;
            let first = next_index_of(s, ':', 0);
            &&& part@ == s.subrange(0, first)
            &&& first == s.len() ==> asil@ == "ASIL UNKNOWN"@
            &&& first < s.len() ==> asil@ == s.subrange(first + 1, next_index_of(s, ':', first + 1))
        },
{
    let n = dimension.unicode_len();
    let first = find_char(dimension, ':', 0);
    let part = dimension.substring_char(0, first).to_owned();
    let asil = if first < n {
        let second = find_char(dimension, ':', first + 1);
        dimension.substring_char(first + 1, second).to_owned()
    } else {
        "ASIL UNKNOWN".to_owned()
    };
    Ok((part, asil))
}


/// No two strings of the list are equal.
pub fn has_unique_elements(ids: &Vec<String>) -> (r: bool)
    ensures
        r == (forall|i: int, j: int| 0 <= i < j < ids@.len() ==> ids@[i]@ != ids@[j]@),
{
    let mut j: usize = 0;
    while j < ids.len()
        invariant
            j <= ids@.len(),
            forall|a: int, b: int| 0 <= a < b < j ==> ids@[a]@ != ids@[b]@,
        decreases ids@.len() - j,
    {
        let mut i: usize = 0;
        while i < j
            invariant
                i <= j < ids@.len(),
                forall|a: int| 0 <= a < i ==> ids@[a]@ != ids@[j as int]@,
            decreases j - i,
        {
            if ids[i] == ids[j] {
                return false;
            }
            i = i + 1;
        }
        j = j + 1;
    }
    true
}

} // verus!
