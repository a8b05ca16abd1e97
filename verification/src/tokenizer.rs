//! The tokenizer: scans raw markup into an ordered sequence of tokens.
//!
//! `spec_tokenize` is the mathematical definition of the scan; `tokenize`
//! is the executable scanner, proved to produce exactly that sequence.
//! Malformed input (an unterminated comment, tag, or script element) ends
//! the scan; tokens already produced remain.

use vstd::prelude::*;

use crate::dom::{is_void, is_void_element, Token, TokenV};
use crate::text::{
    chars_of, find_char, find_sub, first_space, is_blank, is_space, is_space_char,
    leading_matches, leading_spaces, lemma_blank_iff, lemma_find_char_is_none,
    lemma_find_char_is_some, lemma_find_sub_is_none, lemma_find_sub_is_some,
    lemma_leading_matches_is, lemma_leading_spaces_is, lemma_trailing_matches_is,
    lemma_trailing_spaces_is, lower, lower_char, lower_char_exec, match_at, normalize_name,
    str_eq, trailing_matches, trailing_spaces, trim, trim_matching, trim_start,
};

verus! {

/// True when `p` is a prefix of `s`.
pub open spec fn starts_with(s: Seq<char>, p: Seq<char>) -> bool {
    p.len() <= s.len() && s.take(p.len() as int) == p
}

/// The token sequence produced for the remaining input `s`.
///
/// One recursive step consumes a comment, one tag (together with the raw
/// text of a script element), or one text run, mirroring one pass of the
/// scanner's loop.
pub open spec fn spec_tokenize(s: Seq<char>) -> Seq<TokenV>
    decreases s.len(),
    via spec_tokenize_dec
{
    if s.len() == 0 {
        Seq::empty()
    } else if starts_with(s, "<!--"@) {
        match find_sub(s, "-->"@) {
            Some(j) => spec_tokenize(s.skip(j + "-->"@.len())),
            None => Seq::empty(),
        }
    } else if s[0] == '<' {
        match find_char(s, '>') {
            Some(close) => {
                let inside = trim(s.subrange(1, close));
                let rest = s.skip(close + 1);
                if inside.len() == 0 || inside[0] == '!' {
                    spec_tokenize(rest)
                } else if inside[0] == '/' {
                    let name = normalize_name(inside.drop_first());
                    if name.len() == 0 {
                        spec_tokenize(rest)
                    } else {
                        seq![TokenV::EndTag { name }] + spec_tokenize(rest)
                    }
                } else {
                    let self_closing = inside.last() == '/';
                    let name = normalize_name(inside);
                    if name.len() == 0 {
                        spec_tokenize(rest)
                    } else if name == "script"@ {
                        match find_sub(lower(rest), "</script>"@) {
                            Some(j) => {
                                let code = rest.take(j);
                                let after = rest.skip(j + "</script>"@.len());
                                seq![TokenV::StartTag { name }] + (if is_blank(code) {
                                    Seq::empty()
                                } else {
                                    seq![TokenV::Text(code)]
                                }) + seq![TokenV::EndTag { name: "script"@ }] + spec_tokenize(
                                    after,
                                )
                            },
                            None => seq![TokenV::StartTag { name }],
                        }
                    } else if self_closing || is_void(name) {
                        seq![TokenV::StartTag { name }, TokenV::EndTag { name }] + spec_tokenize(
                            rest,
                        )
                    } else {
                        seq![TokenV::StartTag { name }] + spec_tokenize(rest)
                    }
                }
            },
            None => Seq::empty(),
        }
    } else {
        match find_char(s, '<') {
            Some(j) => {
                let text = trim(s.take(j));
                (if text.len() == 0 {
                    Seq::empty()
                } else {
                    seq![TokenV::Text(text)]
                }) + spec_tokenize(s.skip(j))
            },
            None => {
                let text = trim(s);
                if text.len() == 0 {
                    Seq::empty()
                } else {
                    seq![TokenV::Text(text)]
                }
            },
        }
    }
}

#[via_fn]
proof fn spec_tokenize_dec(s: Seq<char>) {
    reveal_strlit("-->");
    reveal_strlit("</script>");
    crate::text::lemma_find_sub(s, "-->"@);
    crate::text::lemma_find_char(s, '>');
    crate::text::lemma_find_char(s, '<');
    match find_char(s, '>') {
        Some(close) => {
            let rest = s.skip(close + 1);
            crate::text::lemma_find_sub(lower(rest), "</script>"@);
        },
        None => {},
    }
}

/// Scans raw markup into its token sequence.
///
/// Comments are skipped; `<...>` bodies become start or end tags with
/// normalized names; a `script` start tag switches to raw-text scanning up
/// to the case-insensitive `</script>`; self-closing and void start tags
/// are followed by a synthetic end tag; non-blank text runs become text
/// tokens.  An unterminated construct ends the scan.
#[verifier::rlimit(60)]
pub fn tokenize(input: &str) -> (tokens: Vec<Token>)
    ensures
        tokens.deep_view() == spec_tokenize(input@),
{
    let v = chars_of(input);
    let n = v.len();
    let comment_open = chars_of("<!--");
    let comment_close = chars_of("-->");
    let script_close = chars_of("</script>");
    proof {
        reveal_strlit("<!--");
        reveal_strlit("-->");
        reveal_strlit("</script>");
        reveal_strlit("script");
    }
    let mut tokens: Vec<Token> = Vec::new();
    let mut i: usize = 0;
    let mut stopped = false;
    proof {
        assert(v@.skip(0) =~= v@);
        assert(tokens.deep_view() =~= Seq::<TokenV>::empty());
        assert(tokens.deep_view() + spec_tokenize(v@.skip(0)) =~= spec_tokenize(input@));
    }
    while i < n && !stopped
        invariant
            v@ == input@,
            n == v@.len(),
            i <= n,
            comment_open@ == "<!--"@,
            comment_close@ == "-->"@,
            script_close@ == "</script>"@,
            "<!--"@.len() == 4,
            "<!--"@[0] == '<',
            "-->"@.len() == 3,
            "</script>"@.len() == 9,
            stopped ==> tokens.deep_view() == spec_tokenize(input@),
            !stopped ==> spec_tokenize(input@) == tokens.deep_view() + spec_tokenize(
                v@.skip(i as int),
            ),
        decreases n - i, (if stopped {
            0int
        } else {
            1int
        }),
    {
        let ghost rem = v@.skip(i as int);
        let ghost pre = tokens.deep_view();
        let is_comment = matches_at(&v, i, &comment_open);
        proof {
            assert(rem.len() == n - i);
            if "<!--"@.len() <= rem.len() {
                assert(rem.take("<!--"@.len() as int) =~= v@.subrange(
                    i as int,
                    i + "<!--"@.len(),
                ));
            }
            assert(starts_with(rem, "<!--"@) == match_at(v@, "<!--"@, i as int));
            assert(rem[0] == v@[i as int]);
        }
        if is_comment {
            match find_sub_from(&v, i, &comment_close) {
                Some(j) => {
                    proof {
                        assert(rem.skip((j - i) + 3) =~= v@.skip(j + 3));
                        assert(spec_tokenize(rem) == spec_tokenize(v@.skip(j + 3)));
                        assert(pre + spec_tokenize(v@.skip(j + 3)) == tokens.deep_view()
                            + spec_tokenize(v@.skip(j + 3)));
                    }
                    i = j + 3;
                },
                None => {
                    proof {
                        assert(spec_tokenize(rem) =~= Seq::<TokenV>::empty());
                        assert(pre + spec_tokenize(rem) =~= pre);
                    }
                    stopped = true;
                },
            }
        } else if v[i] == '<' {
            match find_char_from(&v, i, '>') {
                None => {
                    proof {
                        assert(spec_tokenize(rem) =~= Seq::<TokenV>::empty());
                        assert(pre + spec_tokenize(rem) =~= pre);
                    }
                    stopped = true;
                },
                Some(j) => {
                    proof {
                        crate::text::lemma_find_char(rem, '>');
                        assert(rem[j - i] == '>');
                    }
                    let (a2, b2) = trim_range(&v, i + 1, j);
                    let ghost inside = trim(rem.subrange(1, j - i));
                    let ghost rest = rem.skip(j - i + 1);
                    proof {
                        assert(rem.subrange(1, j - i) =~= v@.subrange(i + 1, j as int));
                        assert(inside == v@.subrange(a2 as int, b2 as int));
                        assert(inside.len() == b2 - a2);
                        assert(rest =~= v@.skip(j + 1));
                    }
                    if a2 == b2 || v[a2] == '!' {
                        proof {
                            if a2 < b2 {
                                assert(inside[0] == v@[a2 as int]);
                            }
                            assert(spec_tokenize(rem) == spec_tokenize(rest));
                        }
                        i = j + 1;
                    } else if v[a2] == '/' {
                        proof {
                            assert(inside[0] == v@[a2 as int]);
                            assert(inside.drop_first() =~= v@.subrange(a2 + 1, b2 as int));
                        }
                        let name = normalize_range(&v, a2 + 1, b2);
                        if name.as_str().unicode_len() == 0 {
                            proof {
                                assert(spec_tokenize(rem) == spec_tokenize(rest));
                            }
                            i = j + 1;
                        } else {
                            let ghost nm = name@;
                            tokens.push(Token::EndTag { name });
                            proof {
                                assert(tokens.deep_view() =~= pre.push(
                                    TokenV::EndTag { name: nm },
                                ));
                                assert(spec_tokenize(rem) == seq![TokenV::EndTag { name: nm }]
                                    + spec_tokenize(rest));
                                assert(pre + (seq![TokenV::EndTag { name: nm }] + spec_tokenize(
                                    rest,
                                )) =~= tokens.deep_view() + spec_tokenize(rest));
                            }
                            i = j + 1;
                        }
                    } else {
                        proof {
                            assert(inside[0] == v@[a2 as int]);
                            assert(inside.last() == v@[b2 - 1]);
                        }
                        let self_closing = v[b2 - 1] == '/';
                        let name = normalize_range(&v, a2, b2);
                        let ghost nm = name@;
                        if name.as_str().unicode_len() == 0 {
                            proof {
                                assert(spec_tokenize(rem) == spec_tokenize(rest));
                            }
                            i = j + 1;
                        } else if str_eq(name.as_str(), "script") {
                            tokens.push(Token::StartTag { name });
                            match find_sub_lower_from(&v, j + 1, &script_close) {
                                Some(k) => {
                                    let ghost code = rest.take(k - (j + 1));
                                    proof {
                                        assert(lower(v@.skip(j + 1)) == lower(rest));
                                        assert(code =~= v@.subrange(j + 1, k as int));
                                    }
                                    let blank = is_blank_range(&v, j + 1, k);
                                    if !blank {
                                        tokens.push(Token::Text(string_range(&v, j + 1, k)));
                                    }
                                    tokens.push(Token::EndTag { name: "script".to_owned() });
                                    proof {
                                        let emitted = seq![TokenV::StartTag { name: nm }] + (
                                        if is_blank(code) {
                                            Seq::<TokenV>::empty()
                                        } else {
                                            seq![TokenV::Text(code)]
                                        }) + seq![TokenV::EndTag { name: "script"@ }];
                                        assert(tokens.deep_view() =~= pre + emitted);
                                        assert(rest.skip((k - (j + 1)) + 9) =~= v@.skip(k + 9));
                                        assert(spec_tokenize(rem) == emitted + spec_tokenize(
                                            v@.skip(k + 9),
                                        ));
                                        assert(pre + (emitted + spec_tokenize(v@.skip(k + 9)))
                                            =~= (pre + emitted) + spec_tokenize(v@.skip(k + 9)));
                                    }
                                    i = k + 9;
                                },
                                None => {
                                    proof {
                                        assert(lower(v@.skip(j + 1)) == lower(rest));
                                        assert(spec_tokenize(rem) =~= seq![
                                            TokenV::StartTag { name: nm },
                                        ]);
                                        assert(tokens.deep_view() =~= pre + spec_tokenize(rem));
                                    }
                                    stopped = true;
                                },
                            }
                        } else {
                            let void = is_void_element(name.as_str());
                            if self_closing || void {
                                let name2 = name.clone();
                                tokens.push(Token::StartTag { name });
                                tokens.push(Token::EndTag { name: name2 });
                                proof {
                                    assert(tokens.deep_view() =~= pre + seq![
                                        TokenV::StartTag { name: nm },
                                        TokenV::EndTag { name: nm },
                                    ]);
                                    assert(spec_tokenize(rem) == seq![
                                        TokenV::StartTag { name: nm },
                                        TokenV::EndTag { name: nm },
                                    ] + spec_tokenize(rest));
                                    assert(pre + (seq![
                                        TokenV::StartTag { name: nm },
                                        TokenV::EndTag { name: nm },
                                    ] + spec_tokenize(rest)) =~= tokens.deep_view()
                                        + spec_tokenize(rest));
                                }
                            } else {
                                tokens.push(Token::StartTag { name });
                                proof {
                                    assert(tokens.deep_view() =~= pre.push(
                                        TokenV::StartTag { name: nm },
                                    ));
                                    assert(spec_tokenize(rem) == seq![
                                        TokenV::StartTag { name: nm },
                                    ] + spec_tokenize(rest));
                                    assert(pre + (seq![TokenV::StartTag { name: nm }]
                                        + spec_tokenize(rest)) =~= tokens.deep_view()
                                        + spec_tokenize(rest));
                                }
                            }
                            i = j + 1;
                        }
                    }
                },
            }
        } else {
            match find_char_from(&v, i, '<') {
                Some(j) => {
                    proof {
                        crate::text::lemma_find_char(rem, '<');
                        assert(rem[j - i] == '<');
                        assert(j > i);
                    }
                    let (a2, b2) = trim_range(&v, i, j);
                    let ghost text = trim(rem.take(j - i));
                    proof {
                        assert(rem.take(j - i) =~= v@.subrange(i as int, j as int));
                        assert(text == v@.subrange(a2 as int, b2 as int));
                        assert(rem.skip(j - i) =~= v@.skip(j as int));
                    }
                    if a2 < b2 {
                        tokens.push(Token::Text(string_range(&v, a2, b2)));
                        proof {
                            assert(tokens.deep_view() =~= pre.push(TokenV::Text(text)));
                            assert(spec_tokenize(rem) == seq![TokenV::Text(text)]
                                + spec_tokenize(v@.skip(j as int)));
                            assert(pre + (seq![TokenV::Text(text)] + spec_tokenize(
                                v@.skip(j as int),
                            )) =~= tokens.deep_view() + spec_tokenize(v@.skip(j as int)));
                        }
                    } else {
                        proof {
                            assert(text.len() == 0);
                            assert(spec_tokenize(rem) == Seq::<TokenV>::empty() + spec_tokenize(
                                v@.skip(j as int),
                            ));
                            assert(Seq::<TokenV>::empty() + spec_tokenize(v@.skip(j as int)) =~=
                                spec_tokenize(v@.skip(j as int)));
                        }
                    }
                    i = j;
                },
                None => {
                    let (a2, b2) = trim_range(&v, i, n);
                    let ghost text = trim(rem);
                    proof {
                        assert(rem =~= v@.subrange(i as int, n as int));
                        assert(text == v@.subrange(a2 as int, b2 as int));
                    }
                    if a2 < b2 {
                        tokens.push(Token::Text(string_range(&v, a2, b2)));
                        proof {
                            assert(tokens.deep_view() =~= pre.push(TokenV::Text(text)));
                            assert(spec_tokenize(rem) =~= seq![TokenV::Text(text)]);
                            assert(pre + spec_tokenize(rem) =~= tokens.deep_view());
                        }
                    } else {
                        proof {
                            assert(text.len() == 0);
                            assert(spec_tokenize(rem) =~= Seq::<TokenV>::empty());
                            assert(pre + spec_tokenize(rem) =~= pre);
                        }
                    }
                    stopped = true;
                },
            }
        }
    }
    proof {
        if !stopped {
            assert(v@.skip(i as int) =~= Seq::<char>::empty());
            assert(spec_tokenize(v@.skip(i as int)) =~= Seq::<TokenV>::empty());
            assert(tokens.deep_view() + spec_tokenize(v@.skip(i as int)) =~= tokens.deep_view());
        }
    }
    tokens
}

/// The string holding the characters `v[a..b]`.
fn string_range(v: &Vec<char>, a: usize, b: usize) -> (out: String)
    requires
        a <= b <= v@.len(),
    ensures
        out@ == v@.subrange(a as int, b as int),
{
    let mut out = String::new();
    let mut t = a;
    while t < b
        invariant
            a <= t <= b <= v@.len(),
            out@ =~= v@.subrange(a as int, t as int),
        decreases b - t,
    {
        out.push(v[t]);
        t = t + 1;
        proof {
            assert(out@ =~= v@.subrange(a as int, t as int));
        }
    }
    proof {
        assert(out@ =~= v@.subrange(a as int, b as int));
    }
    out
}

/// The string holding the characters `v[a..b]`, ASCII-lowercased.
fn lower_string_range(v: &Vec<char>, a: usize, b: usize) -> (out: String)
    requires
        a <= b <= v@.len(),
    ensures
        out@ == lower(v@.subrange(a as int, b as int)),
{
    let mut out = String::new();
    let mut t = a;
    while t < b
        invariant
            a <= t <= b <= v@.len(),
            out@ =~= lower(v@.subrange(a as int, t as int)),
        decreases b - t,
    {
        out.push(lower_char_exec(v[t]));
        t = t + 1;
        proof {
            assert(out@ =~= lower(v@.subrange(a as int, t as int)));
        }
    }
    proof {
        assert(out@ =~= lower(v@.subrange(a as int, b as int)));
    }
    out
}

/// Whether every character in `v[a..b]` is whitespace.
fn is_blank_range(v: &Vec<char>, a: usize, b: usize) -> (r: bool)
    requires
        a <= b <= v@.len(),
    ensures
        r == is_blank(v@.subrange(a as int, b as int)),
{
    let ghost sub = v@.subrange(a as int, b as int);
    proof {
        lemma_blank_iff(sub);
    }
    let mut t = a;
    while t < b
        invariant
            a <= t <= b <= v@.len(),
            sub == v@.subrange(a as int, b as int),
            forall|k: int| 0 <= k < t - a ==> is_space(sub[k]),
        decreases b - t,
    {
        if !is_space_char(v[t]) {
            proof {
                assert(sub[t - a] == v@[t as int]);
                lemma_blank_iff(sub);
            }
            return false;
        }
        t = t + 1;
    }
    true
}

/// Index of the first occurrence of `c` in `v` at or after `from`.
fn find_char_from(v: &Vec<char>, from: usize, c: char) -> (r: Option<usize>)
    requires
        from <= v@.len(),
    ensures
        match r {
            Some(j) => from <= j < v@.len() && find_char(v@.skip(from as int), c) == Some(
                j - from,
            ),
            None => find_char(v@.skip(from as int), c) == None::<int>,
        },
{
    let ghost suf = v@.skip(from as int);
    let n = v.len();
    let mut j = from;
    while j < n
        invariant
            from <= j <= n == v@.len(),
            suf == v@.skip(from as int),
            forall|k: int| 0 <= k < j - from ==> suf[k] != c,
        decreases n - j,
    {
        if v[j] == c {
            proof {
                assert(suf[j - from] == v@[j as int]);
                lemma_find_char_is_some(suf, c, j - from);
            }
            return Some(j);
        }
        proof {
            assert(suf[j - from] == v@[j as int]);
        }
        j = j + 1;
    }
    proof {
        lemma_find_char_is_none(suf, c);
    }
    None
}

/// Whether `needle` occurs in `v` exactly at position `at`.
fn matches_at(v: &Vec<char>, at: usize, needle: &Vec<char>) -> (b: bool)
    requires
        at <= v@.len(),
    ensures
        b == match_at(v@, needle@, at as int),
{
    let m = needle.len();
    let n = v.len();
    if n - at < m {
        proof {
            assert(!match_at(v@, needle@, at as int));
        }
        return false;
    }
    let mut t: usize = 0;
    while t < m
        invariant
            t <= m == needle@.len(),
            n == v@.len(),
            at + m <= n,
            forall|k: int| 0 <= k < t ==> v@[at + k] == needle@[k],
        decreases m - t,
    {
        if v[at + t] != needle[t] {
            proof {
                if match_at(v@, needle@, at as int) {
                    assert(v@.subrange(at as int, at + needle@.len())[t as int] == v@[at + t]);
                }
            }
            return false;
        }
        t = t + 1;
    }
    proof {
        assert(v@.subrange(at as int, at + needle@.len()) =~= needle@);
    }
    true
}

/// Whether `needle` occurs in the lowercased `v` exactly at position `at`.
fn matches_at_lower(v: &Vec<char>, at: usize, needle: &Vec<char>) -> (b: bool)
    requires
        at <= v@.len(),
    ensures
        b == match_at(lower(v@), needle@, at as int),
{
    let m = needle.len();
    let n = v.len();
    if n - at < m {
        proof {
            assert(!match_at(lower(v@), needle@, at as int));
        }
        return false;
    }
    let mut t: usize = 0;
    while t < m
        invariant
            t <= m == needle@.len(),
            n == v@.len(),
            at + m <= n,
            forall|k: int| 0 <= k < t ==> lower_char(v@[at + k]) == needle@[k],
        decreases m - t,
    {
        if lower_char_exec(v[at + t]) != needle[t] {
            proof {
                if match_at(lower(v@), needle@, at as int) {
                    assert(lower(v@).subrange(at as int, at + needle@.len())[t as int] == lower(
                        v@,
                    )[at + t]);
                }
            }
            return false;
        }
        t = t + 1;
    }
    proof {
        assert(lower(v@).subrange(at as int, at + needle@.len()) =~= needle@);
    }
    true
}

/// Index of the first occurrence of `needle` in `v` at or after `from`.
fn find_sub_from(v: &Vec<char>, from: usize, needle: &Vec<char>) -> (r: Option<usize>)
    requires
        from <= v@.len(),
        1 <= needle@.len(),
    ensures
        match r {
            Some(j) => from <= j && j + needle@.len() <= v@.len() && find_sub(
                v@.skip(from as int),
                needle@,
            ) == Some(j - from),
            None => find_sub(v@.skip(from as int), needle@) == None::<int>,
        },
{
    let ghost suf = v@.skip(from as int);
    proof {
        assert forall|p: int| 0 <= p && p + needle@.len() <= suf.len() implies (#[trigger] match_at(
            suf,
            needle@,
            p,
        )) == match_at(v@, needle@, from + p) by {
            assert(suf.subrange(p, p + needle@.len()) =~= v@.subrange(
                from + p,
                from + p + needle@.len(),
            ));
        }
    }
    let n = v.len();
    let mut j = from;
    while j < n
        invariant
            from <= j <= n == v@.len(),
            1 <= needle@.len(),
            suf == v@.skip(from as int),
            forall|p: int|
                0 <= p && p + needle@.len() <= suf.len() ==> (#[trigger] match_at(suf, needle@, p))
                    == match_at(v@, needle@, from + p),
            forall|k: int| 0 <= k < j - from ==> !match_at(suf, needle@, k),
        decreases n - j,
    {
        if matches_at(v, j, needle) {
            proof {
                assert(match_at(suf, needle@, j - from));
                lemma_find_sub_is_some(suf, needle@, j - from);
            }
            return Some(j);
        }
        proof {
            if j - from + needle@.len() <= suf.len() {
                assert(!match_at(suf, needle@, j - from));
            }
        }
        j = j + 1;
    }
    proof {
        assert forall|k: int| 0 <= k <= suf.len() implies !match_at(suf, needle@, k) by {
            if k + needle@.len() <= suf.len() {
                assert(!match_at(suf, needle@, k));
            }
        }
        lemma_find_sub_is_none(suf, needle@);
    }
    None
}

/// Index of the first occurrence of `needle` in the lowercased `v` at or
/// after `from`.
fn find_sub_lower_from(v: &Vec<char>, from: usize, needle: &Vec<char>) -> (r: Option<usize>)
    requires
        from <= v@.len(),
        1 <= needle@.len(),
    ensures
        match r {
            Some(j) => from <= j && j + needle@.len() <= v@.len() && find_sub(
                lower(v@.skip(from as int)),
                needle@,
            ) == Some(j - from),
            None => find_sub(lower(v@.skip(from as int)), needle@) == None::<int>,
        },
{
    let ghost suf = lower(v@.skip(from as int));
    proof {
        assert forall|p: int| 0 <= p && p + needle@.len() <= suf.len() implies (#[trigger] match_at(
            suf,
            needle@,
            p,
        )) == match_at(lower(v@), needle@, from + p) by {
            assert(suf.subrange(p, p + needle@.len()) =~= lower(v@).subrange(
                from + p,
                from + p + needle@.len(),
            ));
        }
    }
    let n = v.len();
    let mut j = from;
    while j < n
        invariant
            from <= j <= n == v@.len(),
            1 <= needle@.len(),
            suf == lower(v@.skip(from as int)),
            forall|p: int|
                0 <= p && p + needle@.len() <= suf.len() ==> (#[trigger] match_at(suf, needle@, p))
                    == match_at(lower(v@), needle@, from + p),
            forall|k: int| 0 <= k < j - from ==> !match_at(suf, needle@, k),
        decreases n - j,
    {
        if matches_at_lower(v, j, needle) {
            proof {
                assert(match_at(suf, needle@, j - from));
                lemma_find_sub_is_some(suf, needle@, j - from);
            }
            return Some(j);
        }
        proof {
            if j - from + needle@.len() <= suf.len() {
                assert(!match_at(suf, needle@, j - from));
            }
        }
        j = j + 1;
    }
    proof {
        assert forall|k: int| 0 <= k <= suf.len() implies !match_at(suf, needle@, k) by {
            if k + needle@.len() <= suf.len() {
                assert(!match_at(suf, needle@, k));
            }
        }
        lemma_find_sub_is_none(suf, needle@);
    }
    None
}

/// The trimmed bounds of `v[a..b]`: whitespace is dropped from both ends.
fn trim_range(v: &Vec<char>, a: usize, b: usize) -> (r: (usize, usize))
    requires
        a <= b <= v@.len(),
    ensures
        a <= r.0 <= r.1 <= b,
        trim(v@.subrange(a as int, b as int)) == v@.subrange(r.0 as int, r.1 as int),
{
    let ghost sub = v@.subrange(a as int, b as int);
    let mut lo = a;
    while lo < b && is_space_char(v[lo])
        invariant
            a <= lo <= b <= v@.len(),
            sub == v@.subrange(a as int, b as int),
            forall|k: int| 0 <= k < lo - a ==> is_space(sub[k]),
        decreases b - lo,
    {
        proof {
            assert(sub[lo - a] == v@[lo as int]);
        }
        lo = lo + 1;
    }
    proof {
        if lo < b {
            assert(sub[lo - a] == v@[lo as int]);
        }
        lemma_leading_spaces_is(sub, lo - a);
    }
    let ghost t = trim_start(sub);
    proof {
        assert(t =~= v@.subrange(lo as int, b as int));
    }
    let mut hi = b;
    while hi > lo && is_space_char(v[hi - 1])
        invariant
            a <= lo <= hi <= b <= v@.len(),
            t == v@.subrange(lo as int, b as int),
            forall|k: int| hi - lo <= k < t.len() ==> is_space(t[k]),
        decreases hi,
    {
        proof {
            assert(t[hi - 1 - lo] == v@[hi - 1]);
        }
        hi = hi - 1;
    }
    proof {
        if hi > lo {
            assert(t[hi - 1 - lo] == v@[hi - 1]);
        }
        lemma_trailing_spaces_is(t, t.len() - (hi - lo));
        assert(trim(sub) =~= v@.subrange(lo as int, hi as int));
    }
    (lo, hi)
}

/// A tag name, normalized: surrounding `/` dropped, first word kept,
/// lowercased.  Works on the characters `v[a..b]`.
fn normalize_range(v: &Vec<char>, a: usize, b: usize) -> (out: String)
    requires
        a <= b <= v@.len(),
    ensures
        out@ == normalize_name(v@.subrange(a as int, b as int)),
{
    let ghost raw = v@.subrange(a as int, b as int);
    // Drop leading and trailing '/' characters.
    let mut lo = a;
    while lo < b && v[lo] == '/'
        invariant
            a <= lo <= b <= v@.len(),
            raw == v@.subrange(a as int, b as int),
            forall|k: int| 0 <= k < lo - a ==> raw[k] == '/',
        decreases b - lo,
    {
        proof {
            assert(raw[lo - a] == v@[lo as int]);
        }
        lo = lo + 1;
    }
    proof {
        if lo < b {
            assert(raw[lo - a] == v@[lo as int]);
        }
        lemma_leading_matches_is(raw, '/', lo - a);
    }
    let ghost t0 = raw.skip(leading_matches(raw, '/'));
    proof {
        assert(t0 =~= v@.subrange(lo as int, b as int));
    }
    let mut hi = b;
    while hi > lo && v[hi - 1] == '/'
        invariant
            a <= lo <= hi <= b <= v@.len(),
            t0 == v@.subrange(lo as int, b as int),
            forall|k: int| hi - lo <= k < t0.len() ==> t0[k] == '/',
        decreases hi,
    {
        proof {
            assert(t0[hi - 1 - lo] == v@[hi - 1]);
        }
        hi = hi - 1;
    }
    proof {
        if hi > lo {
            assert(t0[hi - 1 - lo] == v@[hi - 1]);
        }
        lemma_trailing_matches_is(t0, '/', t0.len() - (hi - lo));
        assert(trim_matching(raw, '/') =~= v@.subrange(lo as int, hi as int));
    }
    let ghost t = trim_matching(raw, '/');
    // Skip leading whitespace.
    let mut lo2 = lo;
    while lo2 < hi && is_space_char(v[lo2])
        invariant
            lo <= lo2 <= hi <= v@.len(),
            t == v@.subrange(lo as int, hi as int),
            forall|k: int| 0 <= k < lo2 - lo ==> is_space(t[k]),
        decreases hi - lo2,
    {
        proof {
            assert(t[lo2 - lo] == v@[lo2 as int]);
        }
        lo2 = lo2 + 1;
    }
    proof {
        if lo2 < hi {
            assert(t[lo2 - lo] == v@[lo2 as int]);
        }
        lemma_leading_spaces_is(t, lo2 - lo);
    }
    let ghost u = trim_start(t);
    proof {
        assert(u =~= v@.subrange(lo2 as int, hi as int));
    }
    // Keep the first whitespace-separated word.
    let mut e = lo2;
    while e < hi && !is_space_char(v[e])
        invariant
            lo2 <= e <= hi <= v@.len(),
            u == v@.subrange(lo2 as int, hi as int),
            forall|k: int| 0 <= k < e - lo2 ==> !is_space(u[k]),
        decreases hi - e,
    {
        proof {
            assert(u[e - lo2] == v@[e as int]);
        }
        e = e + 1;
    }
    proof {
        if e < hi {
            assert(u[e - lo2] == v@[e as int]);
        }
        crate::text::lemma_first_space_is(u, e - lo2);
        assert(u.take(first_space(u)) =~= v@.subrange(lo2 as int, e as int));
    }
    lower_string_range(v, lo2, e)
}

} // verus!
