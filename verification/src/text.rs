//! Character-sequence helpers shared by the tokenizer and the display-list
//! builder: whitespace classification, ASCII lowercasing, trimming, substring
//! search, and tag-name normalization, each with a spec-level definition and
//! a verified executable counterpart.

use vstd::prelude::*;

verus! {

/// The characters recognized when trimming and splitting text: the Unicode
/// `White_Space` code points.
pub open spec fn is_space(c: char) -> bool {
    let u = c as u32;
    ||| (9 <= u && u <= 13)
    ||| u == 0x20
    ||| u == 0x85
    ||| u == 0xa0
    ||| u == 0x1680
    ||| (0x2000 <= u && u <= 0x200a)
    ||| u == 0x2028
    ||| u == 0x2029
    ||| u == 0x202f
    ||| u == 0x205f
    ||| u == 0x3000
}

/// Executable whitespace test.
pub fn is_space_char(c: char) -> (b: bool)
    ensures
        b == is_space(c),
{
    let u = c as u32;
    (9 <= u && u <= 13) || u == 0x20 || u == 0x85 || u == 0xa0 || u == 0x1680 || (0x2000 <= u && u
        <= 0x200a) || u == 0x2028 || u == 0x2029 || u == 0x202f || u == 0x205f || u == 0x3000
}

/// ASCII lowercasing of a single character; other characters are unchanged.
pub open spec fn lower_char(c: char) -> char {
    if 65 <= c as u32 && c as u32 <= 90 {
        ((c as u32) + 32) as char
    } else {
        c
    }
}

/// Executable ASCII lowercasing.
pub fn lower_char_exec(c: char) -> (r: char)
    ensures
        r == lower_char(c),
{
    let u = c as u32;
    if 65 <= u && u <= 90 {
        ((u + 32) as u8) as char
    } else {
        c
    }
}

/// ASCII lowercasing of a whole sequence.
pub open spec fn lower(s: Seq<char>) -> Seq<char> {
    Seq::new(s.len(), |i: int| lower_char(s[i]))
}

/// Number of leading whitespace characters.
pub open spec fn leading_spaces(s: Seq<char>) -> int
    decreases s.len(),
{
    if s.len() == 0 || !is_space(s[0]) {
        0
    } else {
        1 + leading_spaces(s.drop_first())
    }
}

/// Number of trailing whitespace characters.
pub open spec fn trailing_spaces(s: Seq<char>) -> int
    decreases s.len(),
{
    if s.len() == 0 || !is_space(s.last()) {
        0
    } else {
        1 + trailing_spaces(s.drop_last())
    }
}

/// The sequence with leading whitespace removed.
pub open spec fn trim_start(s: Seq<char>) -> Seq<char> {
    s.skip(leading_spaces(s))
}

/// The sequence with trailing whitespace removed.
pub open spec fn trim_end(s: Seq<char>) -> Seq<char> {
    s.take(s.len() - trailing_spaces(s))
}

/// The sequence with whitespace removed from both ends.
pub open spec fn trim(s: Seq<char>) -> Seq<char> {
    trim_end(trim_start(s))
}

/// True when the trimmed sequence is empty, i.e. the text is blank.
pub open spec fn is_blank(s: Seq<char>) -> bool {
    trim(s).len() == 0
}

/// Number of leading occurrences of `c`.
pub open spec fn leading_matches(s: Seq<char>, c: char) -> int
    decreases s.len(),
{
    if s.len() == 0 || s[0] != c {
        0
    } else {
        1 + leading_matches(s.drop_first(), c)
    }
}

/// Number of trailing occurrences of `c`.
pub open spec fn trailing_matches(s: Seq<char>, c: char) -> int
    decreases s.len(),
{
    if s.len() == 0 || s.last() != c {
        0
    } else {
        1 + trailing_matches(s.drop_last(), c)
    }
}

/// The sequence with occurrences of `c` removed from both ends.
pub open spec fn trim_matching(s: Seq<char>, c: char) -> Seq<char> {
    let t = s.skip(leading_matches(s, c));
    t.take(t.len() - trailing_matches(t, c))
}

/// Index of the first whitespace character, or the length if there is none.
pub open spec fn first_space(s: Seq<char>) -> int
    decreases s.len(),
{
    if s.len() == 0 {
        0
    } else if is_space(s[0]) {
        0
    } else {
        1 + first_space(s.drop_first())
    }
}

/// Index of the first occurrence of `c`, if any.
pub open spec fn find_char(s: Seq<char>, c: char) -> Option<int>
    decreases s.len(),
{
    if s.len() == 0 {
        None
    } else if s[0] == c {
        Some(0)
    } else {
        match find_char(s.drop_first(), c) {
            Some(i) => Some(1 + i),
            None => None,
        }
    }
}

/// True when `needle` occurs in `s` starting at position `i`.
pub open spec fn match_at(s: Seq<char>, needle: Seq<char>, i: int) -> bool {
    0 <= i && i + needle.len() <= s.len() && s.subrange(i, i + needle.len()) == needle
}

/// Index of the first occurrence of `needle` in `s`, if any.
pub open spec fn find_sub(s: Seq<char>, needle: Seq<char>) -> Option<int>
    decreases s.len(),
{
    if needle.len() > s.len() {
        None
    } else if s.take(needle.len() as int) == needle {
        Some(0)
    } else if s.len() == 0 {
        None
    } else {
        match find_sub(s.drop_first(), needle) {
            Some(i) => Some(1 + i),
            None => None,
        }
    }
}

/// How a tag name is normalized: surrounding `/` characters are dropped, the
/// first whitespace-separated word is kept, and the word is lowercased.
pub open spec fn normalize_name(raw: Seq<char>) -> Seq<char> {
    let t = trim_matching(raw, '/');
    let u = trim_start(t);
    lower(u.take(first_space(u)))
}

/// `leading_spaces` counts exactly the longest whitespace prefix.
pub proof fn lemma_leading_spaces(s: Seq<char>)
    ensures
        0 <= leading_spaces(s) <= s.len(),
        forall|k: int| 0 <= k < leading_spaces(s) ==> is_space(s[k]),
        leading_spaces(s) < s.len() ==> !is_space(s[leading_spaces(s)]),
    decreases s.len(),
{
    if s.len() == 0 || !is_space(s[0]) {
    } else {
        let d = s.drop_first();
        lemma_leading_spaces(d);
        assert forall|k: int| 0 <= k < leading_spaces(s) implies is_space(s[k]) by {
            if k > 0 {
                assert(is_space(d[k - 1]));
            }
        }
        if leading_spaces(s) < s.len() {
            assert(s[leading_spaces(s)] == d[leading_spaces(d)]);
        }
    }
}

/// `trailing_spaces` counts exactly the longest whitespace suffix.
pub proof fn lemma_trailing_spaces(s: Seq<char>)
    ensures
        0 <= trailing_spaces(s) <= s.len(),
        forall|k: int| s.len() - trailing_spaces(s) <= k < s.len() ==> is_space(s[k]),
        trailing_spaces(s) < s.len() ==> !is_space(s[s.len() - trailing_spaces(s) - 1]),
    decreases s.len(),
{
    if s.len() == 0 || !is_space(s.last()) {
    } else {
        let d = s.drop_last();
        lemma_trailing_spaces(d);
        assert forall|k: int| s.len() - trailing_spaces(s) <= k < s.len() implies is_space(
            s[k],
        ) by {
            if k < s.len() - 1 {
                assert(is_space(d[k]));
            }
        }
        if trailing_spaces(s) < s.len() {
            assert(s[s.len() - trailing_spaces(s) - 1] == d[d.len() - trailing_spaces(d) - 1]);
        }
    }
}

/// `leading_matches` counts exactly the longest prefix of `c`.
pub proof fn lemma_leading_matches(s: Seq<char>, c: char)
    ensures
        0 <= leading_matches(s, c) <= s.len(),
        forall|k: int| 0 <= k < leading_matches(s, c) ==> s[k] == c,
        leading_matches(s, c) < s.len() ==> s[leading_matches(s, c)] != c,
    decreases s.len(),
{
    if s.len() == 0 || s[0] != c {
    } else {
        let d = s.drop_first();
        lemma_leading_matches(d, c);
        assert forall|k: int| 0 <= k < leading_matches(s, c) implies s[k] == c by {
            if k > 0 {
                assert(d[k - 1] == c);
            }
        }
        if leading_matches(s, c) < s.len() {
            assert(s[leading_matches(s, c)] == d[leading_matches(d, c)]);
        }
    }
}

/// `trailing_matches` counts exactly the longest suffix of `c`.
pub proof fn lemma_trailing_matches(s: Seq<char>, c: char)
    ensures
        0 <= trailing_matches(s, c) <= s.len(),
        forall|k: int| s.len() - trailing_matches(s, c) <= k < s.len() ==> s[k] == c,
        trailing_matches(s, c) < s.len() ==> s[s.len() - trailing_matches(s, c) - 1] != c,
    decreases s.len(),
{
    if s.len() == 0 || s.last() != c {
    } else {
        let d = s.drop_last();
        lemma_trailing_matches(d, c);
        assert forall|k: int| s.len() - trailing_matches(s, c) <= k < s.len() implies s[k]
            == c by {
            if k < s.len() - 1 {
                assert(d[k] == c);
            }
        }
        if trailing_matches(s, c) < s.len() {
            assert(s[s.len() - trailing_matches(s, c) - 1] == d[d.len() - trailing_matches(d, c)
                - 1]);
        }
    }
}

/// `first_space` is the position of the first whitespace character.
pub proof fn lemma_first_space(s: Seq<char>)
    ensures
        0 <= first_space(s) <= s.len(),
        forall|k: int| 0 <= k < first_space(s) ==> !is_space(s[k]),
        first_space(s) < s.len() ==> is_space(s[first_space(s)]),
    decreases s.len(),
{
    if s.len() == 0 || is_space(s[0]) {
    } else {
        let d = s.drop_first();
        lemma_first_space(d);
        assert forall|k: int| 0 <= k < first_space(s) implies !is_space(s[k]) by {
            if k > 0 {
                assert(!is_space(d[k - 1]));
            }
        }
        if first_space(s) < s.len() {
            assert(s[first_space(s)] == d[first_space(d)]);
        }
    }
}

/// `find_char` returns the position of the first occurrence of `c`.
pub proof fn lemma_find_char(s: Seq<char>, c: char)
    ensures
        match find_char(s, c) {
            Some(i) => 0 <= i < s.len() && s[i] == c && forall|k: int| 0 <= k < i ==> s[k] != c,
            None => forall|k: int| 0 <= k < s.len() ==> s[k] != c,
        },
    decreases s.len(),
{
    if s.len() == 0 {
    } else if s[0] == c {
    } else {
        let d = s.drop_first();
        lemma_find_char(d, c);
        match find_char(d, c) {
            Some(i) => {
                assert(s[1 + i] == d[i]);
                assert forall|k: int| 0 <= k < 1 + i implies s[k] != c by {
                    if k > 0 {
                        assert(d[k - 1] != c);
                    }
                }
            },
            None => {
                assert forall|k: int| 0 <= k < s.len() implies s[k] != c by {
                    if k > 0 {
                        assert(d[k - 1] != c);
                    }
                }
            },
        }
    }
}

/// `find_sub` returns the position of the first occurrence of `needle`.
pub proof fn lemma_find_sub(s: Seq<char>, needle: Seq<char>)
    ensures
        match find_sub(s, needle) {
            Some(i) => match_at(s, needle, i) && forall|k: int| 0 <= k < i ==> !match_at(
                s,
                needle,
                k,
            ),
            None => forall|k: int| 0 <= k <= s.len() ==> !match_at(s, needle, k),
        },
    decreases s.len(),
{
    if needle.len() > s.len() {
    } else if s.take(needle.len() as int) == needle {
        assert(s.subrange(0, needle.len() as int) == s.take(needle.len() as int));
    } else if s.len() == 0 {
        assert(s.take(0) =~= needle);
    } else {
        lemma_find_sub(s.drop_first(), needle);
        let d = s.drop_first();
        assert forall|k: int| 0 <= k && k + needle.len() <= d.len() implies #[trigger] d.subrange(
            k,
            k + needle.len(),
        ) =~= s.subrange(k + 1, k + 1 + needle.len()) by {}
        assert(!match_at(s, needle, 0)) by {
            assert(s.subrange(0, needle.len() as int) == s.take(needle.len() as int));
        }
        match find_sub(d, needle) {
            Some(i) => {
                assert(match_at(s, needle, i + 1));
                assert forall|k: int| 0 <= k < i + 1 implies !match_at(s, needle, k) by {
                    if k > 0 {
                        assert(!match_at(d, needle, k - 1));
                    }
                }
            },
            None => {
                assert forall|k: int| 0 <= k <= s.len() implies !match_at(s, needle, k) by {
                    if k > 0 {
                        assert(!match_at(d, needle, k - 1));
                    }
                }
            },
        }
    }
}

/// A count with the longest-whitespace-prefix properties is `leading_spaces`.
pub proof fn lemma_leading_spaces_is(s: Seq<char>, c: int)
    requires
        0 <= c <= s.len(),
        forall|k: int| 0 <= k < c ==> is_space(s[k]),
        c < s.len() ==> !is_space(s[c]),
    ensures
        leading_spaces(s) == c,
{
    lemma_leading_spaces(s);
}

/// A count with the longest-whitespace-suffix properties is `trailing_spaces`.
pub proof fn lemma_trailing_spaces_is(s: Seq<char>, c: int)
    requires
        0 <= c <= s.len(),
        forall|k: int| s.len() - c <= k < s.len() ==> is_space(s[k]),
        c < s.len() ==> !is_space(s[s.len() - c - 1]),
    ensures
        trailing_spaces(s) == c,
{
    lemma_trailing_spaces(s);
}

/// A count with the longest-prefix-of-`c` properties is `leading_matches`.
pub proof fn lemma_leading_matches_is(s: Seq<char>, c: char, n: int)
    requires
        0 <= n <= s.len(),
        forall|k: int| 0 <= k < n ==> s[k] == c,
        n < s.len() ==> s[n] != c,
    ensures
        leading_matches(s, c) == n,
{
    lemma_leading_matches(s, c);
}

/// A count with the longest-suffix-of-`c` properties is `trailing_matches`.
pub proof fn lemma_trailing_matches_is(s: Seq<char>, c: char, n: int)
    requires
        0 <= n <= s.len(),
        forall|k: int| s.len() - n <= k < s.len() ==> s[k] == c,
        n < s.len() ==> s[s.len() - n - 1] != c,
    ensures
        trailing_matches(s, c) == n,
{
    lemma_trailing_matches(s, c);
}

/// A position with the first-whitespace properties is `first_space`.
pub proof fn lemma_first_space_is(s: Seq<char>, n: int)
    requires
        0 <= n <= s.len(),
        forall|k: int| 0 <= k < n ==> !is_space(s[k]),
        n < s.len() ==> is_space(s[n]),
    ensures
        first_space(s) == n,
{
    lemma_first_space(s);
}

/// A first-occurrence position is what `find_char` returns.
pub proof fn lemma_find_char_is_some(s: Seq<char>, c: char, i: int)
    requires
        0 <= i < s.len(),
        s[i] == c,
        forall|k: int| 0 <= k < i ==> s[k] != c,
    ensures
        find_char(s, c) == Some(i),
{
    lemma_find_char(s, c);
}

/// When `c` occurs nowhere, `find_char` returns `None`.
pub proof fn lemma_find_char_is_none(s: Seq<char>, c: char)
    requires
        forall|k: int| 0 <= k < s.len() ==> s[k] != c,
    ensures
        find_char(s, c) == None::<int>,
{
    lemma_find_char(s, c);
}

/// A first-match position is what `find_sub` returns.
pub proof fn lemma_find_sub_is_some(s: Seq<char>, needle: Seq<char>, i: int)
    requires
        match_at(s, needle, i),
        forall|k: int| 0 <= k < i ==> !match_at(s, needle, k),
    ensures
        find_sub(s, needle) == Some(i),
{
    lemma_find_sub(s, needle);
}

/// When `needle` matches nowhere, `find_sub` returns `None`.
pub proof fn lemma_find_sub_is_none(s: Seq<char>, needle: Seq<char>)
    requires
        forall|k: int| 0 <= k <= s.len() ==> !match_at(s, needle, k),
    ensures
        find_sub(s, needle) == None::<int>,
{
    lemma_find_sub(s, needle);
}

/// Text is blank exactly when every character is whitespace.
pub proof fn lemma_blank_iff(s: Seq<char>)
    ensures
        is_blank(s) <==> forall|k: int| 0 <= k < s.len() ==> is_space(s[k]),
{
    lemma_leading_spaces(s);
    let t = trim_start(s);
    lemma_trailing_spaces(t);
    if forall|k: int| 0 <= k < s.len() ==> is_space(s[k]) {
        assert(leading_spaces(s) == s.len());
        assert(t.len() == 0);
        assert(trim(s).len() == 0);
    }
    if is_blank(s) {
        assert forall|k: int| 0 <= k < s.len() implies is_space(s[k]) by {
            let l = leading_spaces(s);
            if k >= l {
                assert(t[k - l] == s[k]);
                assert(t.len() - trailing_spaces(t) <= k - l < t.len());
            }
        }
    }
}

/// Relies on `String::push`: appends the character to the end of the string.
pub assume_specification[ String::push ](s: &mut String, c: char)
    ensures
        final(s)@ == old(s)@.push(c),
;

/// The characters of a string slice, as a vector.
pub fn chars_of(s: &str) -> (v: Vec<char>)
    ensures
        v@ == s@,
{
    let n = s.unicode_len();
    let mut v: Vec<char> = Vec::new();
    let mut i: usize = 0;
    while i < n
        invariant
            n == s@.len(),
            i <= n,
            v@ =~= s@.take(i as int),
        decreases n - i,
    {
        v.push(s.get_char(i));
        i = i + 1;
        proof {
            assert(v@ =~= s@.take(i as int));
        }
    }
    proof {
        assert(s@.take(n as int) =~= s@);
    }
    v
}

/// Whether every character of the vector is whitespace.
pub fn blank_chars(v: &Vec<char>) -> (r: bool)
    ensures
        r == is_blank(v@),
{
    let n = v.len();
    let mut t: usize = 0;
    while t < n
        invariant
            t <= n == v@.len(),
            forall|k: int| 0 <= k < t ==> is_space(v@[k]),
        decreases n - t,
    {
        if !is_space_char(v[t]) {
            proof {
                lemma_blank_iff(v@);
            }
            return false;
        }
        t = t + 1;
    }
    proof {
        lemma_blank_iff(v@);
    }
    true
}

/// String-slice equality, decided character by character.
pub fn str_eq(a: &str, b: &str) -> (r: bool)
    ensures
        r == (a@ == b@),
{
    let na = a.unicode_len();
    let nb = b.unicode_len();
    if na != nb {
        return false;
    }
    let mut i: usize = 0;
    while i < na
        invariant
            na == a@.len(),
            nb == b@.len(),
            na == nb,
            i <= na,
            forall|k: int| 0 <= k < i ==> a@[k] == b@[k],
        decreases na - i,
    {
        if a.get_char(i) != b.get_char(i) {
            return false;
        }
        i = i + 1;
    }
    proof {
        assert(a@ =~= b@);
    }
    true
}

} // verus!
