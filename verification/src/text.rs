//! Plain-text helpers for record extraction: whitespace trimming for the
//! name fields, and the year-placeholder substitution applied to birthday
//! values that omit their year.

use vstd::prelude::*;

verus! {

pub open spec fn is_space_char(c: char) -> bool {
    c == ' ' || c == '\t' || c == '\n' || c == '\r' || c == '\u{b}' || c == '\u{c}'
}

pub open spec fn trim_front_spec(s: Seq<char>) -> Seq<char>
    decreases s.len(),
{
    if s.len() > 0 && is_space_char(s[0]) {
        trim_front_spec(s.drop_first())
    } else {
        s
    }
}

pub open spec fn trim_back_spec(s: Seq<char>) -> Seq<char>
    decreases s.len(),
{
    if s.len() > 0 && is_space_char(s.last()) {
        trim_back_spec(s.drop_last())
    } else {
        s
    }
}

/// The text with its leading and trailing whitespace removed.
pub open spec fn trim_spec(s: Seq<char>) -> Seq<char> {
    trim_back_spec(trim_front_spec(s))
}

proof fn lemma_trim_front_subrange(s: Seq<char>, i: int)
    requires
        0 <= i <= s.len(),
        forall|j: int| 0 <= j < i ==> is_space_char(s[j]),
        i == s.len() || !is_space_char(s[i]),
    ensures
        trim_front_spec(s) == s.subrange(i, s.len() as int),
    decreases i,
{
    if i == 0 {
        assert(s.subrange(0, s.len() as int) =~= s);
    } else {
        lemma_trim_front_subrange(s.drop_first(), i - 1);
        assert(s.drop_first().subrange(i - 1, s.len() - 1) =~= s.subrange(i, s.len() as int));
    }
}

proof fn lemma_trim_back_subrange(s: Seq<char>, j: int)
    requires
        0 <= j <= s.len(),
        forall|k: int| j <= k < s.len() ==> is_space_char(s[k]),
        j == 0 || !is_space_char(s[j - 1]),
    ensures
        trim_back_spec(s) == s.subrange(0, j),
    decreases s.len() - j,
{
    if j == s.len() {
        assert(s.subrange(0, j) =~= s);
    } else {
        lemma_trim_back_subrange(s.drop_last(), j);
        assert(s.drop_last().subrange(0, j) =~= s.subrange(0, j));
    }
}

proof fn lemma_trim_front_no_leading(s: Seq<char>)
    ensures
        trim_front_spec(s).len() > 0 ==> !is_space_char(trim_front_spec(s).first()),
    decreases s.len(),
{
    if s.len() > 0 && is_space_char(s[0]) {
        lemma_trim_front_no_leading(s.drop_first());
    }
}

proof fn lemma_trim_back_no_trailing(s: Seq<char>)
    ensures
        trim_back_spec(s).len() > 0 ==> !is_space_char(trim_back_spec(s).last()),
    decreases s.len(),
{
    if s.len() > 0 && is_space_char(s.last()) {
        lemma_trim_back_no_trailing(s.drop_last());
    }
}

proof fn lemma_trim_back_keeps_first(s: Seq<char>)
    ensures
        trim_back_spec(s).len() > 0 ==> trim_back_spec(s).first() == s.first(),
    decreases s.len(),
{
    if s.len() > 0 && is_space_char(s.last()) {
        lemma_trim_back_keeps_first(s.drop_last());
    }
}

/// Law: a trimmed text never begins or ends in whitespace — in particular,
/// the display name built around the unconditional separator space keeps no
/// stray space when either name field is absent.
pub proof fn lemma_trim_no_edge_whitespace(s: Seq<char>)
    ensures
        trim_spec(s).len() > 0 ==> !is_space_char(trim_spec(s).first()),
        trim_spec(s).len() > 0 ==> !is_space_char(trim_spec(s).last()),
{
    lemma_trim_front_no_leading(s);
    lemma_trim_back_no_trailing(trim_front_spec(s));
    lemma_trim_back_keeps_first(trim_front_spec(s));
}

fn is_space(c: char) -> (r: bool)
    ensures
        r == is_space_char(c),
{
    c == ' ' || c == '\t' || c == '\n' || c == '\r' || c == '\u{b}' || c == '\u{c}'
}

/// Removes leading and trailing whitespace from the text.
pub fn trim(s: &str) -> (r: String)
    ensures
        r@ == trim_spec(s@),
{
    let n: usize = s.unicode_len();
    let mut i: usize = 0;
    while i < n && is_space(s.get_char(i))
        invariant
            i <= n,
            n == s@.len(),
            forall|j: int| 0 <= j < i ==> is_space_char(s@[j]),
        decreases n - i,
    {
        i = i + 1;
    }
    let mut j: usize = n;
    while j > i && is_space(s.get_char(j - 1))
        invariant
            i <= j <= n,
            n == s@.len(),
            forall|k: int| j <= k < n ==> is_space_char(s@[k]),
        decreases j,
    {
        j = j - 1;
    }
    let r = s.substring_char(i, j);
    proof {
        lemma_trim_front_subrange(s@, i as int);
        let sub = s@.subrange(i as int, s@.len() as int);
        lemma_trim_back_subrange(sub, j - i);
        assert(sub.subrange(0, j - i) =~= s@.subrange(i as int, j as int));
    }
    r.to_owned()
}

/// The year-placeholder substitution: a birthday that omits its year, written
/// with two leading hyphens, gets the literal placeholder year `1900` spliced
/// in front of its month and day; any other text is left as it is.
pub open spec fn normalize_spec(s: Seq<char>) -> Seq<char> {
    if s.len() >= 2 && s[0] == '-' && s[1] == '-' {
        "1900-"@ + s.subrange(2, s.len() as int)
    } else {
        s
    }
}

/// Applies the year-placeholder substitution to a raw birthday value.
pub fn normalize_birthday(s: &str) -> (r: String)
    ensures
        r@ == normalize_spec(s@),
{
    let n: usize = s.unicode_len();
    if n >= 2 && s.get_char(0) == '-' && s.get_char(1) == '-' {
        let rest = s.substring_char(2, n);
        String::from_str("1900-").concat(rest)
    } else {
        s.to_owned()
    }
}

} // verus!
