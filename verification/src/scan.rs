//! The shader-def scanner: a best-effort, line-oriented scan of raw shader
//! text for the conditional-compilation tokens it references, through the
//! directives `#ifdef NAME`, `#ifndef NAME`, `#if NAME <op> VALUE` (each
//! also in its `#else ...` form) and the inline substitution `#{NAME}`.
//! No condition is evaluated; only names are captured.
use vstd::prelude::*;
use vstd::string::*;

use crate::post::{has_str, unique_views};
use crate::text::is_blank;

verus! {

/// A character that may appear in a token name.
pub open spec fn is_word_char(c: char) -> bool {
    ('a' <= c && c <= 'z') || ('A' <= c && c <= 'Z') || ('0' <= c && c <= '9') || c == '_'
}

/// A character that may appear in a compared value.
pub open spec fn is_value_char(c: char) -> bool {
    is_word_char(c) || c == '-'
}

/// A comparison-operator character.
pub open spec fn is_op_char(c: char) -> bool {
    c == '=' || c == '!' || c == '<' || c == '>'
}

/// The first position at or after `i` that is not blank.
pub open spec fn skip_blanks(s: Seq<char>, i: int) -> int
    decreases s.len() - i,
{
    if 0 <= i < s.len() && is_blank(s[i]) {
        skip_blanks(s, i + 1)
    } else {
        i
    }
}

/// The first position at or after `i` that is not a word character.
pub open spec fn word_end(s: Seq<char>, i: int) -> int
    decreases s.len() - i,
{
    if 0 <= i < s.len() && is_word_char(s[i]) {
        word_end(s, i + 1)
    } else {
        i
    }
}

/// The first position at or after `i` that is not a value character.
pub open spec fn value_end(s: Seq<char>, i: int) -> int
    decreases s.len() - i,
{
    if 0 <= i < s.len() && is_value_char(s[i]) {
        value_end(s, i + 1)
    } else {
        i
    }
}

/// The first position at or after `i` that is not an operator character.
pub open spec fn op_end(s: Seq<char>, i: int) -> int
    decreases s.len() - i,
{
    if 0 <= i < s.len() && is_op_char(s[i]) {
        op_end(s, i + 1)
    } else {
        i
    }
}

/// Whether the literal `lit` occurs at position `i`.
pub open spec fn lit_at(s: Seq<char>, i: int, lit: Seq<char>) -> bool {
    0 <= i && i + lit.len() <= s.len() && s.subrange(i, i + lit.len()) == lit
}

/// The token captured by a conditional directive on this line: blanks, `#`,
/// blanks, an optional `else` and blanks, the keyword, at least one blank,
/// then the name. With `needs_value`, the name must be followed by optional
/// blanks, an optional comparison operator, optional blanks and a non-empty
/// value, as in `#if NAME == 3`.
pub open spec fn directive_capture(line: Seq<char>, kw: Seq<char>, needs_value: bool) -> Option<
    Seq<char>,
> {
    let a = skip_blanks(line, 0);
    if !(a < line.len() && line[a] == '#') {
        None
    } else {
        let b = skip_blanks(line, a + 1);
        let d = if lit_at(line, b, "else"@) && b + 4 < line.len() && is_blank(line[b + 4]) {
            skip_blanks(line, b + 4)
        } else {
            b
        };
        if !lit_at(line, d, kw) {
            None
        } else {
            let e = d + kw.len();
            if !(e < line.len() && is_blank(line[e])) {
                None
            } else {
                let f = skip_blanks(line, e);
                let g = word_end(line, f);
                if g <= f {
                    None
                } else if !needs_value {
                    Some(line.subrange(f, g))
                } else {
                    let h = skip_blanks(line, g);
                    let k = op_end(line, h);
                    let l = skip_blanks(line, k);
                    let m = value_end(line, l);
                    if m > l {
                        Some(line.subrange(f, g))
                    } else {
                        None
                    }
                }
            }
        }
    }
}

/// The tokens captured by delimited `#{NAME}` forms at or after `i`,
/// scanning left to right.
pub open spec fn delim_tokens(line: Seq<char>, i: int) -> Seq<Seq<char>>
    decreases line.len() - i,
    via delim_tokens_dec
{
    if !(0 <= i < line.len()) {
        Seq::empty()
    } else if line[i] == '#' {
        let a = skip_blanks(line, i + 1);
        if a < line.len() && line[a] == '{' {
            let g = word_end(line, a + 1);
            if g > a + 1 && g < line.len() && line[g] == '}' {
                seq![line.subrange(a + 1, g)] + delim_tokens(line, g + 1)
            } else {
                delim_tokens(line, i + 1)
            }
        } else {
            delim_tokens(line, i + 1)
        }
    } else {
        delim_tokens(line, i + 1)
    }
}

#[via_fn]
proof fn delim_tokens_dec(line: Seq<char>, i: int) {
    if 0 <= i < line.len() {
        lemma_skip_blanks_range(line, i + 1);
        let a = skip_blanks(line, i + 1);
        if a < line.len() {
            lemma_word_end_range(line, a + 1);
        }
    }
}

pub open spec fn opt_seq(o: Option<Seq<char>>) -> Seq<Seq<char>> {
    match o {
        Some(t) => seq![t],
        None => Seq::empty(),
    }
}

/// Every token one line references.
pub open spec fn line_tokens(line: Seq<char>) -> Seq<Seq<char>> {
    opt_seq(directive_capture(line, "ifdef"@, false)) + opt_seq(
        directive_capture(line, "ifndef"@, false),
    ) + opt_seq(directive_capture(line, "if"@, true)) + delim_tokens(line, 0)
}

/// The first newline at or after `i`, or the end of the text.
pub open spec fn next_newline(s: Seq<char>, i: int) -> int
    decreases s.len() - i,
{
    if 0 <= i < s.len() && s[i] != '\n' {
        next_newline(s, i + 1)
    } else {
        i
    }
}

proof fn lemma_next_newline_range(s: Seq<char>, i: int)
    requires
        0 <= i <= s.len(),
    ensures
        i <= next_newline(s, i) <= s.len(),
    decreases s.len() - i,
{
    if i < s.len() && s[i] != '\n' {
        lemma_next_newline_range(s, i + 1);
    }
}

/// Every token the text references, line by line, in order of appearance
/// (duplicates included).
pub open spec fn source_tokens(s: Seq<char>, i: int) -> Seq<Seq<char>>
    decreases s.len() - i + 1,
    via source_tokens_dec
{
    if !(0 <= i < s.len()) {
        Seq::empty()
    } else {
        let nl = next_newline(s, i);
        line_tokens(s.subrange(i, nl)) + source_tokens(s, nl + 1)
    }
}

#[via_fn]
proof fn source_tokens_dec(s: Seq<char>, i: int) {
    if 0 <= i < s.len() {
        lemma_next_newline_range(s, i);
    }
}

proof fn lemma_skip_blanks_range(s: Seq<char>, i: int)
    requires
        0 <= i <= s.len(),
    ensures
        i <= skip_blanks(s, i) <= s.len(),
        forall|j: int| i <= j < skip_blanks(s, i) ==> is_blank(s[j]),
        skip_blanks(s, i) < s.len() ==> !is_blank(s[skip_blanks(s, i)]),
    decreases s.len() - i,
{
    if i < s.len() && is_blank(s[i]) {
        lemma_skip_blanks_range(s, i + 1);
    }
}

proof fn lemma_word_end_range(s: Seq<char>, i: int)
    requires
        0 <= i <= s.len(),
    ensures
        i <= word_end(s, i) <= s.len(),
        forall|j: int| i <= j < word_end(s, i) ==> is_word_char(s[j]),
        word_end(s, i) < s.len() ==> !is_word_char(s[word_end(s, i)]),
    decreases s.len() - i,
{
    if i < s.len() && is_word_char(s[i]) {
        lemma_word_end_range(s, i + 1);
    }
}

pub(crate) fn blank_char_pub(c: char) -> (r: bool)
    ensures
        r == is_blank(c),
{
    c == ' ' || c == '\t' || c == '\r'
}

fn word_char(c: char) -> (r: bool)
    ensures
        r == is_word_char(c),
{
    ('a' <= c && c <= 'z') || ('A' <= c && c <= 'Z') || ('0' <= c && c <= '9') || c == '_'
}

fn value_char(c: char) -> (r: bool)
    ensures
        r == is_value_char(c),
{
    word_char(c) || c == '-'
}

fn op_char(c: char) -> (r: bool)
    ensures
        r == is_op_char(c),
{
    c == '=' || c == '!' || c == '<' || c == '>'
}

fn exec_skip_blanks(s: &str, i: usize) -> (r: usize)
    requires
        i <= s@.len(),
    ensures
        r == skip_blanks(s@, i as int),
        i <= r <= s@.len(),
    decreases s@.len() - i,
{
    if i < s.unicode_len() && blank_char_pub(s.get_char(i)) {
        exec_skip_blanks(s, i + 1)
    } else {
        i
    }
}

fn exec_word_end(s: &str, i: usize) -> (r: usize)
    requires
        i <= s@.len(),
    ensures
        r == word_end(s@, i as int),
        i <= r <= s@.len(),
    decreases s@.len() - i,
{
    if i < s.unicode_len() && word_char(s.get_char(i)) {
        exec_word_end(s, i + 1)
    } else {
        i
    }
}

fn exec_value_end(s: &str, i: usize) -> (r: usize)
    requires
        i <= s@.len(),
    ensures
        r == value_end(s@, i as int),
        i <= r <= s@.len(),
    decreases s@.len() - i,
{
    if i < s.unicode_len() && value_char(s.get_char(i)) {
        exec_value_end(s, i + 1)
    } else {
        i
    }
}

fn exec_op_end(s: &str, i: usize) -> (r: usize)
    requires
        i <= s@.len(),
    ensures
        r == op_end(s@, i as int),
        i <= r <= s@.len(),
    decreases s@.len() - i,
{
    if i < s.unicode_len() && op_char(s.get_char(i)) {
        exec_op_end(s, i + 1)
    } else {
        i
    }
}

pub(crate) fn exec_lit_at(s: &str, i: usize, lit: &str) -> (r: bool)
    requires
        i <= s@.len(),
    ensures
        r == lit_at(s@, i as int, lit@),
{
    let n = lit.unicode_len();
    let sn = s.unicode_len();
    if n > sn - i {
        return false;
    }
    let mut k: usize = 0;
    while k != n
        invariant
            k <= n,
            n == lit@.len(),
            sn == s@.len(),
            i + n <= sn,
            forall|j: int| 0 <= j < k ==> s@[i + j] == lit@[j],
        decreases n - k,
    {
        if s.get_char(i + k) != lit.get_char(k) {
            proof {
                assert(s@.subrange(i as int, i + lit@.len())[k as int] != lit@[k as int]);
            }
            return false;
        }
        k = k + 1;
    }
    proof {
        assert(s@.subrange(i as int, i + lit@.len()) =~= lit@);
    }
    true
}

fn exec_directive_capture(line: &str, kw: &str, needs_value: bool) -> (r: Option<String>)
    ensures
        match r {
            Some(t) => directive_capture(line@, kw@, needs_value) == Some(t@),
            None => directive_capture(line@, kw@, needs_value) is None,
        },
{
    let n = line.unicode_len();
    let a = exec_skip_blanks(line, 0);
    if !(a < n && line.get_char(a) == '#') {
        return None;
    }
    let b = exec_skip_blanks(line, a + 1);
    let has_else = exec_lit_at(line, b, "else") && n - b > 4 && blank_char_pub(line.get_char(b + 4));
    proof {
        reveal_strlit("else");
    }
    let d = if has_else {
        exec_skip_blanks(line, b + 4)
    } else {
        b
    };
    if !exec_lit_at(line, d, kw) {
        return None;
    }
    let e = d + kw.unicode_len();
    if !(e < n && blank_char_pub(line.get_char(e))) {
        return None;
    }
    let f = exec_skip_blanks(line, e);
    let g = exec_word_end(line, f);
    if g <= f {
        return None;
    }
    if needs_value {
        let h = exec_skip_blanks(line, g);
        let k = exec_op_end(line, h);
        let l = exec_skip_blanks(line, k);
        let m = exec_value_end(line, l);
        if m <= l {
            return None;
        }
    }
    Some(line.substring_char(f, g).to_owned())
}

fn exec_delim_tokens(line: &str, i: usize, out: &mut Vec<String>)
    requires
        i <= line@.len(),
    ensures
        final(out)@.len() >= old(out)@.len(),
        final(out)@.take(old(out)@.len() as int) == old(out)@,
        final(out)@.skip(old(out)@.len() as int).map_values(|t: String| t@) == delim_tokens(
            line@,
            i as int,
        ),
    decreases line@.len() - i,
{
    let ghost base = out@;
    let n = line.unicode_len();
    if i == n {
        proof {
            assert(out@.skip(base.len() as int) =~= Seq::<String>::empty());
            assert(out@.skip(base.len() as int).map_values(|t: String| t@) =~= delim_tokens(
                line@,
                i as int,
            ));
        }
        return ;
    }
    if line.get_char(i) == '#' {
        let a = exec_skip_blanks(line, i + 1);
        if a < n && line.get_char(a) == '{' {
            let g = exec_word_end(line, a + 1);
            if g > a + 1 && g < n && line.get_char(g) == '}' {
                let tok = line.substring_char(a + 1, g).to_owned();
                let ghost tv = tok@;
                out.push(tok);
                let ghost mid = out@;
                exec_delim_tokens(line, g + 1, out);
                proof {
                    assert(delim_tokens(line@, i as int) == seq![
                        line@.subrange(a + 1, g as int),
                    ] + delim_tokens(line@, g + 1));
                    assert(mid == base.push(tok));
                    assert(out@.take(mid.len() as int) == mid);
                    assert(out@.take(base.len() as int) =~= base);
                    let tail = out@.skip(base.len() as int);
                    let target = seq![line@.subrange(a + 1, g as int)] + delim_tokens(
                        line@,
                        g + 1,
                    );
                    assert(tail.map_values(|t: String| t@) =~= target) by {
                        let rec = out@.skip(mid.len() as int).map_values(|t: String| t@);
                        assert(rec == delim_tokens(line@, g + 1));
                        assert(tail.len() == 1 + rec.len());
                        assert forall|w: int|
                            0 <= w < tail.len() implies tail.map_values(|t: String| t@)[w]
                            == target[w] by {
                            if w == 0 {
                                assert(tail[0] == out@[base.len() as int]);
                                assert(out@[base.len() as int] == mid[base.len() as int]);
                                assert(mid[base.len() as int] == tok);
                                assert(target[0] == line@.subrange(a + 1, g as int));
                            } else {
                                assert(tail[w] == out@[base.len() + w]);
                                assert(out@.skip(mid.len() as int)[w - 1] == out@[base.len()
                                    + w]);
                                assert(rec[w - 1] == delim_tokens(line@, g + 1)[w - 1]);
                                assert(target[w] == delim_tokens(line@, g + 1)[w - 1]);
                            }
                        }
                    }
                }
                return ;
            }
        }
    }
    exec_delim_tokens(line, i + 1, out);
}

fn push_unique(out: &mut Vec<String>, tok: String)
    ensures
        unique_views(old(out)@) ==> unique_views(final(out)@),
        forall|s: Seq<char>| has_str(final(out)@, s) <==> has_str(old(out)@, s) || s == tok@,
        forall|t: int|
            0 <= t < final(out)@.len() ==> has_str(old(out)@, (#[trigger] final(out)@[t])@)
                || final(out)@[t]@ == tok@,
{
    let ghost base = out@;
    if !crate::post::contains_str(out, tok.as_str()) {
        out.push(tok);
        proof {
            assert forall|s: Seq<char>| has_str(out@, s) <==> has_str(base, s) || s == tok@ by {
                if has_str(out@, s) {
                    let w = choose|w: int| 0 <= w < out@.len() && (#[trigger] out@[w])@ == s;
                    if w < base.len() {
                        assert(out@[w] == base[w]);
                        assert(has_str(base, s));
                    }
                }
                if has_str(base, s) {
                    let w = choose|w: int| 0 <= w < base.len() && (#[trigger] base[w])@ == s;
                    assert(out@[w]@ == s);
                }
                if s == tok@ {
                    assert(out@[out@.len() - 1]@ == s);
                }
            }
            assert forall|a: int, b: int|
                0 <= a < b < out@.len() && unique_views(base) implies out@[a]@ != out@[b]@ by {
                if b == out@.len() - 1 {
                    if out@[a]@ == tok@ {
                        assert(base[a]@ == tok@);
                        assert(has_str(base, tok@));
                    }
                }
            }
        }
    } else {
        proof {
            assert forall|s: Seq<char>| has_str(out@, s) <==> has_str(base, s) || s == tok@ by {
                if s == tok@ {
                    assert(has_str(out@, s));
                }
            }
        }
    }
}

/// Scan raw shader text for every conditional-compilation token it
/// references. Best effort: directives spelled outside the four
/// recognized patterns contribute nothing, and never fail the scan.
/// Returns each referenced token once, in order of first appearance.
#[verifier::loop_isolation(false)]
pub fn find_defs(source: &str) -> (r: Vec<String>)
    ensures
        unique_views(r@),
        forall|s: Seq<char>| #![trigger has_str(r@, s)] #![trigger source_tokens(source@, 0).contains(s)]
            has_str(r@, s) <==> source_tokens(source@, 0).contains(s),
{
    let n = source.unicode_len();
    let mut out: Vec<String> = Vec::new();
    let mut i: usize = 0;
    while i != n
        invariant
            i <= n,
            unique_views(out@),
            forall|s: Seq<char>| #![trigger source_tokens(source@, 0).contains(s)]
                has_str(out@, s) || source_tokens(source@, i as int).contains(s)
                    <==> source_tokens(source@, 0).contains(s),
        decreases n - i,
    {
        let ghost i0 = i as int;
        // find the end of this line
        let mut nl = i;
        while nl != n && source.get_char(nl) != '\n'
            invariant
                i <= nl <= n,
                forall|j: int| i <= j < nl ==> source@[j] != '\n',
            decreases n - nl,
        {
            nl = nl + 1;
        }
        proof {
            lemma_next_newline_at(source@, i0, nl as int);
        }
        let line = source.substring_char(i, nl).to_owned();
        let ghost lv = source@.subrange(i0, nl as int);
        proof {
            lemma_source_tokens_step(source@, i0, nl as int);
        }
        let mut line_toks: Vec<String> = Vec::new();
        if let Some(t) = exec_directive_capture(line.as_str(), "ifdef", false) {
            line_toks.push(t);
        }
        if let Some(t) = exec_directive_capture(line.as_str(), "ifndef", false) {
            line_toks.push(t);
        }
        if let Some(t) = exec_directive_capture(line.as_str(), "if", true) {
            line_toks.push(t);
        }
        proof {
            assert(line_toks@.map_values(|t: String| t@) =~= opt_seq(
                directive_capture(lv, "ifdef"@, false),
            ) + opt_seq(directive_capture(lv, "ifndef"@, false)) + opt_seq(
                directive_capture(lv, "if"@, true),
            ));
        }
        exec_delim_tokens(line.as_str(), 0, &mut line_toks);
        proof {
            assert(line_toks@.map_values(|t: String| t@) =~= line_tokens(lv));
        }
        // merge this line's tokens into the result set
        let ghost lt = line_tokens(lv);
        proof {
            assert(lt.skip(0) =~= lt);
            assert forall|s: Seq<char>|
                has_str(out@, s) || lt.contains(s) || source_tokens(source@, nl + 1).contains(
                    s,
                ) <==> source_tokens(source@, 0).contains(s) by {
                assert(source_tokens(source@, i0).contains(s) <==> lt.contains(s)
                    || source_tokens(source@, nl + 1).contains(s));
                assert(has_str(out@, s) || source_tokens(source@, i0).contains(s)
                    <==> source_tokens(source@, 0).contains(s));
            }
        }
        let mut rest = line_toks;
        while rest.len() != 0
            invariant
                unique_views(out@),
                rest@.len() <= lt.len(),
                rest@.map_values(|t: String| t@) =~= lt.skip(lt.len() - rest@.len()),
                forall|s: Seq<char>| #![trigger source_tokens(source@, 0).contains(s)]
                    has_str(out@, s) || lt.skip(lt.len() - rest@.len()).contains(s)
                        || source_tokens(source@, nl + 1).contains(s) <==> source_tokens(
                        source@,
                        0,
                    ).contains(s),
            decreases rest@.len(),
        {
            let ghost done = lt.len() - rest@.len();
            let ghost rest0 = rest@;
            let tok = rest.remove(0);
            proof {
                assert(rest0.map_values(|t: String| t@)[0] == tok@);
                assert(tok@ == lt.skip(done)[0]);
                assert(lt.skip(done)[0] == lt[done]);
                assert(tok@ == lt[done]);
                assert(rest@.map_values(|t: String| t@) =~= lt.skip(done + 1)) by {
                    assert forall|w: int| 0 <= w < rest@.len() implies (#[trigger] rest@[w])@
                        == lt.skip(done + 1)[w] by {
                        assert(rest@[w] == rest0[w + 1]);
                        assert(rest0.map_values(|t: String| t@)[w + 1] == lt.skip(done)[w + 1]);
                        assert(lt.skip(done)[w + 1] == lt.skip(done + 1)[w]);
                    }
                    assert forall|w: int|
                        0 <= w < rest@.len() implies rest@.map_values(|t: String| t@)[w] == (
                        #[trigger] lt.skip(done + 1)[w]) by {
                        assert(rest@.map_values(|t: String| t@)[w] == rest@[w]@);
                    }
                }
            }
            push_unique(&mut out, tok);
            proof {
                assert forall|s: Seq<char>|
                    (has_str(out@, s) || lt.skip(done + 1).contains(s) || source_tokens(
                        source@,
                        nl + 1,
                    ).contains(s)) <==> source_tokens(source@, 0).contains(s) by {
                    if lt.skip(done).contains(s) {
                        let w = choose|w: int|
                            0 <= w < lt.skip(done).len() && #[trigger] lt.skip(done)[w] == s;
                        if w == 0 {
                            assert(s == tok@);
                            assert(has_str(out@, s));
                        } else {
                            assert(lt.skip(done + 1)[w - 1] == s);
                        }
                    }
                    if lt.skip(done + 1).contains(s) {
                        let w = choose|w: int|
                            0 <= w < lt.skip(done + 1).len() && #[trigger] lt.skip(
                                done + 1,
                            )[w] == s;
                        assert(lt.skip(done)[w + 1] == s);
                    }
                    if s == tok@ {
                        assert(lt.skip(done)[0] == s);
                    }
                }
            }
        }
        proof {
            assert(lt.skip(lt.len() - 0) =~= Seq::<Seq<char>>::empty());
            assert forall|s: Seq<char>|
                lt.contains(s) <==> line_tokens(lv).contains(s) by {}
        }
        if nl == n {
            i = n;
            proof {
                assert(source_tokens(source@, n as int) =~= Seq::<Seq<char>>::empty());
                assert forall|s: Seq<char>|
                    has_str(out@, s) || source_tokens(source@, i as int).contains(s)
                        <==> source_tokens(source@, 0).contains(s) by {
                    assert(!source_tokens(source@, i as int).contains(s));
                }
            }
        } else {
            i = nl + 1;
            proof {
                assert forall|s: Seq<char>|
                    has_str(out@, s) || source_tokens(source@, i as int).contains(s)
                        <==> source_tokens(source@, 0).contains(s) by {
                    if source_tokens(source@, i as int).contains(s) {
                        assert(source_tokens(source@, i0).contains(s));
                    }
                }
            }
        }
    }
    proof {
        assert(source_tokens(source@, n as int) =~= Seq::<Seq<char>>::empty());
        assert forall|s: Seq<char>|
            has_str(out@, s) <==> source_tokens(source@, 0).contains(s) by {
            assert(!source_tokens(source@, n as int).contains(s));
        }
    }
    out
}

proof fn lemma_next_newline_at(s: Seq<char>, i: int, nl: int)
    requires
        0 <= i <= nl <= s.len(),
        forall|j: int| i <= j < nl ==> s[j] != '\n',
        nl < s.len() ==> s[nl] == '\n',
    ensures
        next_newline(s, i) == nl,
    decreases nl - i,
{
    if i < nl {
        lemma_next_newline_at(s, i + 1, nl);
    }
}

proof fn lemma_source_tokens_step(s: Seq<char>, i: int, nl: int)
    requires
        0 <= i < s.len(),
        next_newline(s, i) == nl,
        i <= nl <= s.len(),
    ensures
        forall|t: Seq<char>| #![trigger source_tokens(s, i).contains(t)]
            source_tokens(s, i).contains(t) <==> line_tokens(s.subrange(i, nl)).contains(t)
                || source_tokens(s, nl + 1).contains(t),
        nl == s.len() ==> source_tokens(s, nl + 1) =~= Seq::<Seq<char>>::empty(),
{
    assert(source_tokens(s, i) == line_tokens(s.subrange(i, nl)) + source_tokens(s, nl + 1));
    assert forall|t: Seq<char>|
        source_tokens(s, i).contains(t) <==> line_tokens(s.subrange(i, nl)).contains(t)
            || source_tokens(s, nl + 1).contains(t) by {
        let a = line_tokens(s.subrange(i, nl));
        let b = source_tokens(s, nl + 1);
        if (a + b).contains(t) {
            let w = choose|w: int| 0 <= w < (a + b).len() && (a + b)[w] == t;
            if w < a.len() {
                assert(a[w] == t);
            } else {
                assert(b[w - a.len()] == t);
            }
        }
        if a.contains(t) {
            let w = choose|w: int| 0 <= w < a.len() && a[w] == t;
            assert((a + b)[w] == t);
        }
        if b.contains(t) {
            let w = choose|w: int| 0 <= w < b.len() && b[w] == t;
            assert((a + b)[a.len() + w] == t);
        }
    }
}


/// The first position at or after `i` that is blank or the end.
pub open spec fn nonblank_end(s: Seq<char>, i: int) -> int
    decreases s.len() - i,
{
    if 0 <= i < s.len() && !is_blank(s[i]) {
        nonblank_end(s, i + 1)
    } else {
        i
    }
}

fn exec_nonblank_end(s: &str, i: usize) -> (r: usize)
    requires
        i <= s@.len(),
    ensures
        r == nonblank_end(s@, i as int),
        i <= r <= s@.len(),
    decreases s@.len() - i,
{
    if i < s.unicode_len() && !blank_char_pub(s.get_char(i)) {
        exec_nonblank_end(s, i + 1)
    } else {
        i
    }
}

/// The namespace path one line declares for the unit: blanks, `#`,
/// blanks, `define_import_path`, at least one blank, then the path as a
/// run of non-blank characters.
pub open spec fn import_path_capture(line: Seq<char>) -> Option<Seq<char>> {
    let a = skip_blanks(line, 0);
    if !(a < line.len() && line[a] == '#') {
        None
    } else {
        let b = skip_blanks(line, a + 1);
        if !lit_at(line, b, "define_import_path"@) {
            None
        } else {
            let e = b + "define_import_path"@.len();
            if !(e < line.len() && is_blank(line[e])) {
                None
            } else {
                let f = skip_blanks(line, e);
                let g = nonblank_end(line, f);
                if g > f {
                    Some(line.subrange(f, g))
                } else {
                    None
                }
            }
        }
    }
}

/// The declared namespace path of the last line that declares one.
pub open spec fn declared_path(s: Seq<char>, i: int) -> Option<Seq<char>>
    decreases s.len() - i + 1,
    via declared_path_dec
{
    if !(0 <= i < s.len()) {
        None
    } else {
        let nl = next_newline(s, i);
        let rest = declared_path(s, nl + 1);
        if rest is Some {
            rest
        } else {
            import_path_capture(s.subrange(i, nl))
        }
    }
}

#[via_fn]
proof fn declared_path_dec(s: Seq<char>, i: int) {
    if 0 <= i < s.len() {
        lemma_next_newline_range(s, i);
    }
}

fn exec_import_path_capture(line: &str) -> (r: Option<String>)
    ensures
        match r {
            Some(t) => import_path_capture(line@) == Some(t@),
            None => import_path_capture(line@) is None,
        },
{
    let n = line.unicode_len();
    let a = exec_skip_blanks(line, 0);
    if !(a < n && line.get_char(a) == '#') {
        return None;
    }
    let b = exec_skip_blanks(line, a + 1);
    if !exec_lit_at(line, b, "define_import_path") {
        return None;
    }
    let e = b + "define_import_path".unicode_len();
    if !(e < n && blank_char_pub(line.get_char(e))) {
        return None;
    }
    let f = exec_skip_blanks(line, e);
    let g = exec_nonblank_end(line, f);
    if g > f {
        Some(line.substring_char(f, g).to_owned())
    } else {
        None
    }
}

/// The namespace path the unit's text declares for itself, if any: the
/// capture of the last `#define_import_path` directive. A unit without
/// one is standalone.
#[verifier::loop_isolation(false)]
pub fn parse_import_path_decl(source: &str) -> (r: Option<String>)
    ensures
        match r {
            Some(t) => declared_path(source@, 0) == Some(t@),
            None => declared_path(source@, 0) is None,
        },
{
    let n = source.unicode_len();
    let mut best: Option<String> = None;
    let mut i: usize = 0;
    while i != n
        invariant
            i <= n,
            match best {
                Some(t) => declared_path(source@, 0) == if declared_path(
                    source@,
                    i as int,
                ) is Some {
                    declared_path(source@, i as int)
                } else {
                    Some(t@)
                },
                None => declared_path(source@, 0) == declared_path(source@, i as int),
            },
        decreases n - i,
    {
        let ghost i0 = i as int;
        let mut nl = i;
        while nl != n && source.get_char(nl) != '\n'
            invariant
                i <= nl <= n,
                forall|j: int| i <= j < nl ==> source@[j] != '\n',
            decreases n - nl,
        {
            nl = nl + 1;
        }
        proof {
            lemma_next_newline_at(source@, i0, nl as int);
        }
        let line = source.substring_char(i, nl).to_owned();
        if let Some(t) = exec_import_path_capture(line.as_str()) {
            best = Some(t);
        }
        proof {
            if nl == n {
                assert(declared_path(source@, nl + 1) is None);
            }
        }
        if nl == n {
            i = n;
        } else {
            i = nl + 1;
        }
    }
    proof {
        assert(declared_path(source@, n as int) is None);
    }
    best
}

} // verus!
