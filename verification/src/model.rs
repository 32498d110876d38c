//! The mathematical model of the scanner's grammar, over `Seq<char>`.
//!
//! Every executable recognizer in this crate is specified against one of the
//! spec functions here: they say, position by position, which span a
//! recognizer extracts and what input it leaves behind.

use vstd::prelude::*;

use crate::tokens::{IncludeView, StatementView};

verus! {

/// The character classes the grammar distinguishes. `AsciiSpace` is the
/// whitespace that delimiters and separators are made of; `TokenChar` and
/// `PathChar` exclude all Unicode whitespace, and a path additionally may
/// not contain the closing directive delimiter.
#[derive(Clone, Copy, Debug, PartialEq, Eq, Structural)]
pub enum CharClass {
    AsciiSpace,
    TokenChar,
    PathChar,
    NotRightGullwing,
}

/// Unicode whitespace: the `White_Space` character set.
pub open spec fn is_whitespace_char(c: char) -> bool {
    c == ' ' || c == '\t' || c == '\n' || c == '\r' || c == '\u{B}' || c == '\u{C}'
        || c == '\u{85}' || c == '\u{A0}' || c == '\u{1680}' || c == '\u{2000}' || c == '\u{2001}'
        || c == '\u{2002}' || c == '\u{2003}' || c == '\u{2004}' || c == '\u{2005}'
        || c == '\u{2006}' || c == '\u{2007}' || c == '\u{2008}' || c == '\u{2009}'
        || c == '\u{200A}' || c == '\u{2028}' || c == '\u{2029}' || c == '\u{202F}'
        || c == '\u{205F}' || c == '\u{3000}'
}

/// ASCII whitespace: what trimming and argument separation go by.
pub open spec fn is_ascii_space_char(c: char) -> bool {
    c == ' ' || c == '\t' || c == '\n' || c == '\r'
}

/// A decimal digit.
pub open spec fn is_digit_char(c: char) -> bool {
    48 <= c as u32 <= 57
}

pub open spec fn in_class(cl: CharClass, c: char) -> bool {
    match cl {
        CharClass::AsciiSpace => is_ascii_space_char(c),
        CharClass::TokenChar => !is_whitespace_char(c),
        CharClass::PathChar => !is_whitespace_char(c) && c != '}',
        CharClass::NotRightGullwing => c != '}',
    }
}

/// Length of the maximal prefix of `s` whose characters all lie in `cl`.
pub open spec fn run_len(cl: CharClass, s: Seq<char>) -> nat
    decreases s.len(),
{
    if s.len() == 0 || !in_class(cl, s[0]) {
        0
    } else {
        1 + run_len(cl, s.subrange(1, s.len() as int))
    }
}

/// The run is a prefix: it never exceeds the input's length.
pub proof fn lemma_run_len_le(cl: CharClass, s: Seq<char>)
    ensures
        run_len(cl, s) <= s.len(),
    decreases s.len(),
{
    if s.len() != 0 && in_class(cl, s[0]) {
        lemma_run_len_le(cl, s.subrange(1, s.len() as int));
    }
}

/// Characterization of the run: every character inside it lies in the class,
/// and the first character after it (if any) does not.
pub proof fn lemma_run_len_chars(cl: CharClass, s: Seq<char>)
    ensures
        run_len(cl, s) <= s.len(),
        forall|k: int| 0 <= k < run_len(cl, s) ==> in_class(cl, s[k]),
        run_len(cl, s) < s.len() ==> !in_class(cl, s[run_len(cl, s) as int]),
    decreases s.len(),
{
    lemma_run_len_le(cl, s);
    if s.len() != 0 && in_class(cl, s[0]) {
        let tail = s.subrange(1, s.len() as int);
        lemma_run_len_chars(cl, tail);
        assert(forall|k: int| 1 <= k < run_len(cl, s) ==> s[k] == tail[k - 1]);
    }
}

/// The characterization determines the run length uniquely.
pub proof fn lemma_run_len_is(cl: CharClass, s: Seq<char>, n: nat)
    requires
        n <= s.len(),
        forall|k: int| 0 <= k < n ==> in_class(cl, s[k]),
        n < s.len() ==> !in_class(cl, s[n as int]),
    ensures
        run_len(cl, s) == n,
{
    lemma_run_len_chars(cl, s);
    if run_len(cl, s) < n {
        assert(in_class(cl, s[run_len(cl, s) as int]));
    }
    if run_len(cl, s) > n {
        assert(in_class(cl, s[n as int]));
    }
}

/// A comment opener `/*` sits at position `i` of `s`.
pub open spec fn open_at(s: Seq<char>, i: int) -> bool {
    0 <= i && i + 2 <= s.len() && s[i] == '/' && s[i + 1] == '*'
}

/// A comment closer `*/` sits at position `i` of `s`.
pub open spec fn close_at(s: Seq<char>, i: int) -> bool {
    0 <= i && i + 2 <= s.len() && s[i] == '*' && s[i + 1] == '/'
}

/// Position of the first comment closer at or after `i`, if any.
pub open spec fn find_close(s: Seq<char>, i: nat) -> Option<nat>
    decreases s.len() - i,
{
    if i + 2 > s.len() {
        None
    } else if close_at(s, i as int) {
        Some(i)
    } else {
        find_close(s, (i + 1) as nat)
    }
}

/// Characterization of `find_close`: the found position is the first closer
/// at or after `i`; `None` means there is none.
pub proof fn lemma_find_close(s: Seq<char>, i: nat)
    ensures
        match find_close(s, i) {
            Some(j) => i <= j && close_at(s, j as int) && forall|k: int|
                i <= k < j ==> !close_at(s, k),
            None => forall|k: int| i <= k ==> !close_at(s, k),
        },
    decreases s.len() - i,
{
    if i + 2 > s.len() {
    } else if close_at(s, i as int) {
    } else {
        lemma_find_close(s, (i + 1) as nat);
    }
}

/// How many comment openers `/*` occur in `s` at or after `i`, counted the
/// way a left-to-right non-overlapping search counts them.
pub open spec fn opener_count(s: Seq<char>, i: nat) -> nat
    decreases s.len() - i,
{
    if i + 2 > s.len() {
        0
    } else if open_at(s, i as int) {
        1 + opener_count(s, (i + 2) as nat)
    } else {
        opener_count(s, (i + 1) as nat)
    }
}

/// There cannot be more openers than remaining characters.
pub proof fn lemma_opener_count_le(s: Seq<char>, i: nat)
    requires
        i <= s.len(),
    ensures
        opener_count(s, i) <= s.len() - i,
    decreases s.len() - i,
{
    if i + 2 > s.len() {
    } else if open_at(s, i as int) {
        lemma_opener_count_le(s, (i + 2) as nat);
    } else {
        lemma_opener_count_le(s, (i + 1) as nat);
    }
}

/// The bounded span between the directive delimiters: if `s` starts with `{`
/// and a `}` follows, yields the text strictly between them and the input
/// after the `}`.
pub open spec fn gullwing_body(s: Seq<char>) -> Option<(Seq<char>, Seq<char>)> {
    if s.len() >= 1 && s[0] == '{' {
        let tail = s.subrange(1, s.len() as int);
        let n = run_len(CharClass::NotRightGullwing, tail);
        if n < tail.len() {
            Some((tail.subrange(0, n as int), tail.subrange(n as int + 1, tail.len() as int)))
        } else {
            None
        }
    } else {
        None
    }
}

/// The path of a directive body: after leading ASCII whitespace, a non-empty
/// maximal run of path characters; whitespace after the path is consumed too.
/// Yields the path and what remains of the body.
pub open spec fn path_split(s: Seq<char>) -> Option<(Seq<char>, Seq<char>)> {
    let t = run_len(CharClass::AsciiSpace, s);
    let s1 = s.subrange(t as int, s.len() as int);
    let n = run_len(CharClass::PathChar, s1);
    if n == 0 {
        None
    } else {
        let s2 = s1.subrange(n as int, s1.len() as int);
        let t2 = run_len(CharClass::AsciiSpace, s2);
        Some((s1.subrange(0, n as int), s2.subrange(t2 as int, s2.len() as int)))
    }
}

/// Argument splitting: a maximal (possibly empty) run of token characters,
/// then, as long as a non-empty ASCII whitespace run follows, another such
/// token. Always yields at least one token; a trailing separator yields one
/// trailing empty token. Returns the tokens and the unconsumed remainder.
pub open spec fn split_args(s: Seq<char>) -> (Seq<Seq<char>>, Seq<char>)
    decreases s.len(),
    via split_args_decreases
{
    let n = run_len(CharClass::TokenChar, s);
    let rest = s.subrange(n as int, s.len() as int);
    let m = run_len(CharClass::AsciiSpace, rest);
    if m == 0 {
        (seq![s.subrange(0, n as int)], rest)
    } else {
        let (args, left) = split_args(rest.subrange(m as int, rest.len() as int));
        (seq![s.subrange(0, n as int)] + args, left)
    }
}

#[via_fn]
proof fn split_args_decreases(s: Seq<char>) {
    lemma_run_len_le(CharClass::TokenChar, s);
    let n = run_len(CharClass::TokenChar, s);
    lemma_run_len_le(CharClass::AsciiSpace, s.subrange(n as int, s.len() as int));
}

/// The include-directive recognizer. On input starting with `{`: take the
/// bounded span up to the first `}`; a single-digit body is reclassified as
/// a comment (a positional-parameter placeholder of the host language);
/// otherwise the body must yield a non-empty path, and the rest of the body
/// splits into arguments.
pub open spec fn directive_model(s: Seq<char>) -> Option<(StatementView, Seq<char>)> {
    match gullwing_body(s) {
        Some((body, rest)) => {
            if body.len() == 1 && is_digit_char(body[0]) {
                Some((StatementView::Comment(body), rest))
            } else {
                match path_split(body) {
                    Some((path, after)) => Some(
                        (
                            StatementView::Include(
                                IncludeView {
                                    path: path,
                                    content: None,
                                    arguments: split_args(after).0,
                                },
                            ),
                            rest,
                        ),
                    ),
                    None => None,
                }
            }
        },
        None => None,
    }
}

/// Consume, `k` times, everything up to and including the next comment
/// closer; `None` if some round finds no closer.
pub open spec fn skip_closers(s: Seq<char>, k: nat) -> Option<Seq<char>>
    decreases k,
{
    if k == 0 {
        Some(s)
    } else {
        match find_close(s, 0) {
            Some(j) => skip_closers(s.subrange(j as int + 2, s.len() as int), (k - 1) as nat),
            None => None,
        }
    }
}

/// The comment recognizer. On input starting with `/*`: the body is the span
/// up to the first `*/`; for every nested opener inside that body, one more
/// run through the following `*/` is consumed from the remaining input; the
/// returned body is the first span only.
pub open spec fn comment_model(s: Seq<char>) -> Option<(StatementView, Seq<char>)> {
    if open_at(s, 0) {
        let tail = s.subrange(2, s.len() as int);
        match find_close(tail, 0) {
            Some(j) => {
                let body = tail.subrange(0, j as int);
                let rest0 = tail.subrange(j as int + 2, tail.len() as int);
                match skip_closers(rest0, opener_count(body, 0)) {
                    Some(rest) => Some((StatementView::Comment(body), rest)),
                    None => None,
                }
            },
            None => None,
        }
    } else {
        None
    }
}

/// The skip-scanner: drop one character at a time until the comment or the
/// directive recognizer succeeds; `None` if the input runs out first.
pub open spec fn skip_scan(s: Seq<char>) -> Option<(StatementView, Seq<char>)>
    decreases s.len(),
{
    if comment_model(s) is Some {
        comment_model(s)
    } else if directive_model(s) is Some {
        directive_model(s)
    } else if s.len() == 0 {
        None
    } else {
        skip_scan(s.subrange(1, s.len() as int))
    }
}

/// The dispatcher: trim leading ASCII whitespace, look at the next character
/// without consuming it, and route to the comment recognizer on `/`, to the
/// directive recognizer on `{`, and to the skip-scanner otherwise; trailing
/// ASCII whitespace after a recognized statement is consumed as well.
pub open spec fn dispatch_model(s: Seq<char>) -> Option<(StatementView, Seq<char>)> {
    let t = run_len(CharClass::AsciiSpace, s);
    let s1 = s.subrange(t as int, s.len() as int);
    if s1.len() == 0 {
        None
    } else {
        let routed = if s1[0] == '/' {
            comment_model(s1)
        } else if s1[0] == '{' {
            directive_model(s1)
        } else {
            skip_scan(s1)
        };
        match routed {
            Some((st, rest)) => {
                let t2 = run_len(CharClass::AsciiSpace, rest);
                Some((st, rest.subrange(t2 as int, rest.len() as int)))
            },
            None => None,
        }
    }
}

/// Skipping closer runs never lengthens the input.
pub proof fn lemma_skip_closers_le(s: Seq<char>, k: nat)
    ensures
        match skip_closers(s, k) {
            Some(r) => r.len() <= s.len(),
            None => true,
        },
    decreases k,
{
    if k > 0 {
        lemma_find_close(s, 0);
        match find_close(s, 0) {
            Some(j) => {
                lemma_skip_closers_le(s.subrange(j as int + 2, s.len() as int), (k - 1) as nat);
            },
            None => {},
        }
    }
}

/// A successful directive recognition consumes at least one character.
pub proof fn lemma_directive_progress(s: Seq<char>)
    ensures
        match directive_model(s) {
            Some((st, rest)) => rest.len() < s.len(),
            None => true,
        },
{
    if s.len() >= 1 && s[0] == '{' {
        let tail = s.subrange(1, s.len() as int);
        lemma_run_len_le(CharClass::NotRightGullwing, tail);
    }
}

/// A successful comment recognition consumes at least one character.
pub proof fn lemma_comment_progress(s: Seq<char>)
    ensures
        match comment_model(s) {
            Some((st, rest)) => rest.len() < s.len(),
            None => true,
        },
{
    if open_at(s, 0) {
        let tail = s.subrange(2, s.len() as int);
        lemma_find_close(tail, 0);
        match find_close(tail, 0) {
            Some(j) => {
                let body = tail.subrange(0, j as int);
                let rest0 = tail.subrange(j as int + 2, tail.len() as int);
                lemma_skip_closers_le(rest0, opener_count(body, 0));
            },
            None => {},
        }
    }
}

/// A successful skip-scan consumes at least one character.
pub proof fn lemma_skip_scan_progress(s: Seq<char>)
    ensures
        match skip_scan(s) {
            Some((st, rest)) => rest.len() < s.len(),
            None => true,
        },
    decreases s.len(),
{
    lemma_comment_progress(s);
    lemma_directive_progress(s);
    if comment_model(s) is None && directive_model(s) is None && s.len() != 0 {
        lemma_skip_scan_progress(s.subrange(1, s.len() as int));
    }
}

/// A successful dispatch consumes at least one character.
pub proof fn lemma_dispatch_progress(s: Seq<char>)
    ensures
        match dispatch_model(s) {
            Some((st, rest)) => rest.len() < s.len(),
            None => true,
        },
{
    let t = run_len(CharClass::AsciiSpace, s);
    lemma_run_len_le(CharClass::AsciiSpace, s);
    let s1 = s.subrange(t as int, s.len() as int);
    if s1.len() != 0 {
        lemma_comment_progress(s1);
        lemma_directive_progress(s1);
        lemma_skip_scan_progress(s1);
        let routed = if s1[0] == '/' {
            comment_model(s1)
        } else if s1[0] == '{' {
            directive_model(s1)
        } else {
            skip_scan(s1)
        };
        match routed {
            Some((st, rest)) => {
                lemma_run_len_le(CharClass::AsciiSpace, rest);
            },
            None => {},
        }
    }
}

/// The driver: apply the dispatcher until it fails, collecting the
/// recognized statements in order.
pub open spec fn scan_model(s: Seq<char>) -> Seq<StatementView>
    decreases s.len(),
    via scan_model_decreases
{
    match dispatch_model(s) {
        None => seq![],
        Some((st, rest)) => seq![st] + scan_model(rest),
    }
}

#[via_fn]
proof fn scan_model_decreases(s: Seq<char>) {
    lemma_dispatch_progress(s);
}

} // verus!
