//! The executable recognizers: bounded-span extraction between the directive
//! delimiters, path and argument splitting, the comment recognizer, and the
//! skip-scanner. Each one is proved to compute exactly what the corresponding
//! spec function in [`crate::model`] says.
//!
//! A recognizer takes the input positioned at its start and, on success,
//! returns what it recognized together with the unconsumed remainder. All
//! returned slices borrow from the scanned input.

use vstd::prelude::*;

use crate::model::{
    CharClass, close_at, comment_model, directive_model, find_close, gullwing_body, in_class,
    is_ascii_space_char, is_digit_char, is_whitespace_char, lemma_run_len_le, open_at,
    opener_count, path_split, run_len, skip_closers, skip_scan, split_args,
};
use crate::tokens::{Include, Statement, str_views};

verus! {

/// Whether `c` is Unicode whitespace (the `White_Space` character set).
fn whitespace_char(c: char) -> (r: bool)
    ensures
        r == is_whitespace_char(c),
{
    c == ' ' || c == '\t' || c == '\n' || c == '\r' || c == '\u{B}' || c == '\u{C}'
        || c == '\u{85}' || c == '\u{A0}' || c == '\u{1680}' || c == '\u{2000}' || c == '\u{2001}'
        || c == '\u{2002}' || c == '\u{2003}' || c == '\u{2004}' || c == '\u{2005}'
        || c == '\u{2006}' || c == '\u{2007}' || c == '\u{2008}' || c == '\u{2009}'
        || c == '\u{200A}' || c == '\u{2028}' || c == '\u{2029}' || c == '\u{202F}'
        || c == '\u{205F}' || c == '\u{3000}'
}

/// Whether `c` is ASCII whitespace.
fn ascii_space_char(c: char) -> (r: bool)
    ensures
        r == is_ascii_space_char(c),
{
    c == ' ' || c == '\t' || c == '\n' || c == '\r'
}

/// Whether `c` is a decimal digit.
fn digit_char(c: char) -> (r: bool)
    ensures
        r == is_digit_char(c),
{
    let u = c as u32;
    48 <= u && u <= 57
}

/// Whether `c` lies in the character class `cl`.
fn class_char(cl: CharClass, c: char) -> (r: bool)
    ensures
        r == in_class(cl, c),
{
    match cl {
        CharClass::AsciiSpace => ascii_space_char(c),
        CharClass::TokenChar => !whitespace_char(c),
        CharClass::PathChar => !whitespace_char(c) && c != '}',
        CharClass::NotRightGullwing => c != '}',
    }
}

/// Length of the maximal prefix of `s` lying in class `cl`: the predicate-run
/// primitive. Never fails; the run may be empty.
pub(crate) fn take_run(cl: CharClass, s: &str) -> (n: usize)
    ensures
        n == run_len(cl, s@),
        n <= s@.len(),
{
    let len = s.unicode_len();
    let mut i: usize = 0;
    proof {
        lemma_run_len_le(cl, s@);
        assert(s@.subrange(0, s@.len() as int) =~= s@);
    }
    loop
        invariant
            i <= len,
            len == s@.len(),
            run_len(cl, s@) == i + run_len(cl, s@.subrange(i as int, s@.len() as int)),
            run_len(cl, s@) <= s@.len(),
        decreases len - i,
    {
        let ghost suf = s@.subrange(i as int, s@.len() as int);
        if i == len {
            assert(suf.len() == 0);
            return i;
        }
        let c = s.get_char(i);
        assert(suf[0] == s@[i as int]);
        if !class_char(cl, c) {
            assert(run_len(cl, suf) == 0);
            return i;
        }
        proof {
            assert(suf.subrange(1, suf.len() as int) =~= s@.subrange(
                i as int + 1,
                s@.len() as int,
            ));
        }
        i = i + 1;
    }
}

/// Position of the first comment closer `*/` in `s`, if any.
fn find_closer(s: &str) -> (r: Option<usize>)
    ensures
        match r {
            Some(j) => find_close(s@, 0) == Some(j as nat) && j + 2 <= s@.len(),
            None => find_close(s@, 0) is None,
        },
{
    let len = s.unicode_len();
    let mut i: usize = 0;
    loop
        invariant
            i <= len,
            len == s@.len(),
            find_close(s@, 0) == find_close(s@, i as nat),
        decreases len - i,
    {
        if len < 2 || i > len - 2 {
            assert(find_close(s@, i as nat) is None);
            return None;
        }
        let c0 = s.get_char(i);
        let c1 = s.get_char(i + 1);
        if c0 == '*' && c1 == '/' {
            assert(close_at(s@, i as int));
            return Some(i);
        }
        assert(!close_at(s@, i as int));
        i = i + 1;
    }
}

/// How many comment openers `/*` a left-to-right non-overlapping search
/// finds in `s`.
fn count_openers(s: &str) -> (r: usize)
    ensures
        r == opener_count(s@, 0),
{
    let len = s.unicode_len();
    let mut i: usize = 0;
    let mut count: usize = 0;
    proof {
        crate::model::lemma_opener_count_le(s@, 0);
    }
    loop
        invariant
            i <= len,
            len == s@.len(),
            opener_count(s@, 0) == count + opener_count(s@, i as nat),
            opener_count(s@, 0) <= s@.len(),
        decreases len - i,
    {
        if len < 2 || i > len - 2 {
            assert(opener_count(s@, i as nat) == 0);
            return count;
        }
        let c0 = s.get_char(i);
        let c1 = s.get_char(i + 1);
        if c0 == '/' && c1 == '*' {
            assert(open_at(s@, i as int));
            proof {
                crate::model::lemma_opener_count_le(s@, (i + 2) as nat);
            }
            count = count + 1;
            i = i + 2;
        } else {
            assert(!open_at(s@, i as int));
            i = i + 1;
        }
    }
}

/// Bounded-span extraction between the directive delimiters: consumes a
/// leading `{`, captures everything up to (not including) the first `}`,
/// consumes that `}`, and returns the captured body and the remainder.
/// Fails if the opener is absent or no closer follows.
pub fn between_gullwings<'a>(input: &'a str) -> (r: Option<(&'a str, &'a str)>)
    ensures
        match r {
            Some(br) => gullwing_body(input@) == Some((br.0@, br.1@)),
            None => gullwing_body(input@) is None,
        },
{
    let len = input.unicode_len();
    if len == 0 || input.get_char(0) != '{' {
        return None;
    }
    let tail = input.substring_char(1, len);
    let n = take_run(CharClass::NotRightGullwing, tail);
    if n == len - 1 {
        return None;
    }
    let body = tail.substring_char(0, n);
    let rest = tail.substring_char(n + 1, len - 1);
    Some((body, rest))
}

/// Path extraction from a directive body: skips surrounding ASCII
/// whitespace and takes a maximal non-empty run of path characters. Fails
/// on an empty run (an empty or whitespace-only body, or one whose first
/// token starts with a character a path may not contain).
pub fn parse_include_path<'a>(input: &'a str) -> (r: Option<(&'a str, &'a str)>)
    ensures
        match r {
            Some(pr) => path_split(input@) == Some((pr.0@, pr.1@)),
            None => path_split(input@) is None,
        },
{
    let len = input.unicode_len();
    let t = take_run(CharClass::AsciiSpace, input);
    let s1 = input.substring_char(t, len);
    let n = take_run(CharClass::PathChar, s1);
    if n == 0 {
        return None;
    }
    let path = s1.substring_char(0, n);
    let s2 = s1.substring_char(n, len - t);
    let t2 = take_run(CharClass::AsciiSpace, s2);
    let rest = s2.substring_char(t2, len - t - n);
    Some((path, rest))
}

/// Argument splitting: one whitespace-separated token after another, with a
/// zero-width token attempted after a trailing separator. Never fails;
/// always yields at least one (possibly empty) token. Returns the tokens and
/// the unconsumed remainder.
pub fn parse_include_args<'a>(input: &'a str) -> (r: (Vec<&'a str>, &'a str))
    ensures
        str_views(r.0@) == split_args(input@).0,
        r.1@ == split_args(input@).1,
{
    let mut args: Vec<&'a str> = Vec::new();
    let mut cur: &'a str = input;
    let mut cur_len = input.unicode_len();
    loop
        invariant
            cur_len == cur@.len(),
            split_args(input@).0 == str_views(args@) + split_args(cur@).0,
            split_args(input@).1 == split_args(cur@).1,
        decreases cur@.len(),
    {
        let ghost args_before = args@;
        let n = take_run(CharClass::TokenChar, cur);
        let tok = cur.substring_char(0, n);
        let rest = cur.substring_char(n, cur_len);
        let m = take_run(CharClass::AsciiSpace, rest);
        args.push(tok);
        proof {
            assert(str_views(args@) =~= str_views(args_before) + seq![tok@]);
        }
        if m == 0 {
            proof {
                assert(str_views(args@) =~= split_args(input@).0);
            }
            return (args, rest);
        }
        cur = rest.substring_char(m, cur_len - n);
        cur_len = cur_len - n - m;
        proof {
            assert(split_args(input@).0 =~= str_views(args@) + split_args(cur@).0);
        }
    }
}

/// The include-directive recognizer: the bounded span between `{` and the
/// first `}` is the directive body; a body that is exactly one decimal digit
/// is a positional-parameter placeholder of the host language and comes back
/// as a comment; otherwise the body must begin (after optional whitespace)
/// with a non-empty path, and the rest of the body splits into arguments.
pub fn parse_include<'a>(input: &'a str) -> (r: Option<(Statement<'a>, &'a str)>)
    ensures
        match r {
            Some(sr) => directive_model(input@) == Some((sr.0@, sr.1@)),
            None => directive_model(input@) is None,
        },
{
    match between_gullwings(input) {
        None => None,
        Some((body, rest)) => {
            let blen = body.unicode_len();
            if blen == 1 && digit_char(body.get_char(0)) {
                return Some((Statement::Comment(body), rest));
            }
            match parse_include_path(body) {
                None => None,
                Some((path, after)) => {
                    let (arguments, _left) = parse_include_args(after);
                    Some(
                        (
                            Statement::Include(
                                Include { path: path, content: None, arguments: arguments },
                            ),
                            rest,
                        ),
                    )
                },
            }
        },
    }
}

/// The comment recognizer: the body is the span between `/*` and the first
/// `*/`; for every nested opener counted inside that body, one further run
/// up to and including the next `*/` is consumed from the remaining input.
/// The returned comment wraps the first span only.
pub fn parse_comment<'a>(input: &'a str) -> (r: Option<(Statement<'a>, &'a str)>)
    ensures
        match r {
            Some(sr) => comment_model(input@) == Some((sr.0@, sr.1@)),
            None => comment_model(input@) is None,
        },
{
    let len = input.unicode_len();
    if len < 2 || input.get_char(0) != '/' || input.get_char(1) != '*' {
        assert(!open_at(input@, 0));
        return None;
    }
    assert(open_at(input@, 0));
    let tail = input.substring_char(2, len);
    match find_closer(tail) {
        None => None,
        Some(j) => {
            let body = tail.substring_char(0, j);
            let k = count_openers(body);
            let ghost rest0_view = tail@.subrange(j as int + 2, tail@.len() as int);
            let mut rest = tail.substring_char(j + 2, len - 2);
            let mut rest_len = len - 2 - (j + 2);
            let mut done: usize = 0;
            #[verifier::loop_isolation(false)]
            loop
                invariant
                    done <= k,
                    rest_len == rest@.len(),
                    skip_closers(rest0_view, k as nat) == skip_closers(rest@, (k - done) as nat),
                decreases k - done,
            {
                if done == k {
                    return Some((Statement::Comment(body), rest));
                }
                match find_closer(rest) {
                    None => {
                        return None;
                    },
                    Some(j2) => {
                        rest = rest.substring_char(j2 + 2, rest_len);
                        rest_len = rest_len - (j2 + 2);
                        done = done + 1;
                    },
                }
            }
        },
    }
}

/// The skip-scanner: discard one character at a time until the comment or
/// the directive recognizer succeeds at the current position; fails only if
/// the input is exhausted first.
pub fn skip_to_comment_or_include<'a>(input: &'a str) -> (r: Option<(Statement<'a>, &'a str)>)
    ensures
        match r {
            Some(sr) => skip_scan(input@) == Some((sr.0@, sr.1@)),
            None => skip_scan(input@) is None,
        },
{
    let mut cur: &'a str = input;
    let mut cur_len = input.unicode_len();
    loop
        invariant
            cur_len == cur@.len(),
            skip_scan(input@) == skip_scan(cur@),
        decreases cur@.len(),
    {
        match parse_comment(cur) {
            Some(sr) => {
                return Some(sr);
            },
            None => {},
        }
        match parse_include(cur) {
            Some(sr) => {
                return Some(sr);
            },
            None => {},
        }
        if cur_len == 0 {
            return None;
        }
        cur = cur.substring_char(1, cur_len);
        cur_len = cur_len - 1;
    }
}

} // verus!
