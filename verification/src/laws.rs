//! General laws of the scanner, stated over the grammar model and proved
//! once and for all.

use vstd::prelude::*;

use crate::model::{
    CharClass, comment_model, directive_model, dispatch_model, in_class,
    is_ascii_space_char, is_digit_char, lemma_run_len_is, run_len, scan_model, skip_scan,
    split_args,
};
use crate::tokens::{IncludeView, StatementView};

verus! {

/// The driver carries no hidden state: after any successful recognition, the
/// statements scanned from the whole input are exactly the recognized
/// statement followed by the statements scanned from the unconsumed
/// remainder as a fresh, independent input.
pub proof fn lemma_driver_stateless(s: Seq<char>, st: StatementView, rest: Seq<char>)
    requires
        dispatch_model(s) == Some((st, rest)),
    ensures
        scan_model(s) == seq![st] + scan_model(rest),
{
}

/// A single-digit directive body is always reinterpreted as a comment, never
/// as an include directive: it is a positional-parameter placeholder of the
/// host language.
pub proof fn lemma_single_digit_is_comment(s: Seq<char>)
    requires
        s.len() >= 3,
        s[0] == '{',
        is_digit_char(s[1]),
        s[2] == '}',
    ensures
        directive_model(s) == Some(
            (StatementView::Comment(seq![s[1]]), s.subrange(3, s.len() as int)),
        ),
{
    let tail = s.subrange(1, s.len() as int);
    assert(tail[0] == s[1] && tail[1] == s[2]);
    assert(tail[0] != '}');
    lemma_run_len_is(CharClass::NotRightGullwing, tail, 1);
    let body = tail.subrange(0, 1);
    assert(body =~= seq![s[1]]);
    assert(tail.subrange(2, tail.len() as int) =~= s.subrange(3, s.len() as int));
}

/// No suffix of `s` begins a recognizable comment or include directive: the
/// whole input is skippable text.
pub open spec fn all_skippable(s: Seq<char>) -> bool {
    forall|i: int|
        0 <= i <= s.len() ==> comment_model(#[trigger] s.subrange(i, s.len() as int)) is None
            && directive_model(s.subrange(i, s.len() as int)) is None
}

proof fn lemma_skip_scan_finds_nothing(s: Seq<char>)
    requires
        all_skippable(s),
    ensures
        skip_scan(s) is None,
    decreases s.len(),
{
    assert(s.subrange(0, s.len() as int) =~= s);
    if s.len() != 0 {
        let tail = s.subrange(1, s.len() as int);
        assert forall|i: int| 0 <= i <= tail.len() implies comment_model(
            #[trigger] tail.subrange(i, tail.len() as int),
        ) is None && directive_model(tail.subrange(i, tail.len() as int)) is None by {
            assert(tail.subrange(i, tail.len() as int) =~= s.subrange(i + 1, s.len() as int));
        }
        lemma_skip_scan_finds_nothing(tail);
    }
}

/// On input consisting only of skippable text, with no comment and no
/// directive anywhere in it, the driver returns the empty sequence: none of
/// the input is consumed into any statement.
pub proof fn lemma_skippable_input_yields_nothing(s: Seq<char>)
    requires
        all_skippable(s),
    ensures
        scan_model(s) == Seq::<StatementView>::empty(),
{
    let t = run_len(CharClass::AsciiSpace, s);
    crate::model::lemma_run_len_le(CharClass::AsciiSpace, s);
    let s1 = s.subrange(t as int, s.len() as int);
    if s1.len() != 0 {
        assert(comment_model(s1) is None && directive_model(s1) is None);
        assert forall|i: int| 0 <= i <= s1.len() implies comment_model(
            #[trigger] s1.subrange(i, s1.len() as int),
        ) is None && directive_model(s1.subrange(i, s1.len() as int)) is None by {
            assert(s1.subrange(i, s1.len() as int) =~= s.subrange(t + i, s.len() as int));
        }
        lemma_skip_scan_finds_nothing(s1);
    }
    assert(dispatch_model(s) is None);
    assert(scan_model(s) =~= Seq::<StatementView>::empty());
}

/// A statement the scanner can actually produce: a comment or an include
/// directive, never one of the reserved container variants.
pub open spec fn produced_statement(st: StatementView) -> bool {
    st is Comment || st is Include
}

proof fn lemma_skip_scan_produced(s: Seq<char>)
    ensures
        match skip_scan(s) {
            Some((st, rest)) => produced_statement(st),
            None => true,
        },
    decreases s.len(),
{
    if comment_model(s) is Some || directive_model(s) is Some || s.len() == 0 {
    } else {
        lemma_skip_scan_produced(s.subrange(1, s.len() as int));
    }
}

/// The scanner never constructs the reserved `Procedure` and `Function`
/// container variants: everything the driver returns is a comment or an
/// include directive.
pub proof fn lemma_scanner_produces_only_comments_and_includes(s: Seq<char>)
    ensures
        forall|i: int|
            0 <= i < scan_model(s).len() ==> produced_statement(#[trigger] scan_model(s)[i]),
    decreases s.len(),
{
    match dispatch_model(s) {
        None => {},
        Some((st, rest)) => {
            let t = run_len(CharClass::AsciiSpace, s);
            let s1 = s.subrange(t as int, s.len() as int);
            lemma_skip_scan_produced(s1);
            crate::model::lemma_dispatch_progress(s);
            lemma_scanner_produces_only_comments_and_includes(rest);
            assert(scan_model(s) == seq![st] + scan_model(rest));
            assert forall|i: int| 0 <= i < scan_model(s).len() implies produced_statement(
                #[trigger] scan_model(s)[i],
            ) by {
                if i > 0 {
                    assert(scan_model(s)[i] == scan_model(rest)[i - 1]);
                }
            }
        },
    }
}

/// A plain argument token: non-empty, made only of token characters, none of
/// them the closing directive delimiter.
pub open spec fn plain_token(t: Seq<char>) -> bool {
    t.len() > 0 && forall|k: int|
        0 <= k < t.len() ==> in_class(CharClass::TokenChar, #[trigger] t[k]) && t[k] != '}'
}

/// The given tokens joined by single spaces.
pub open spec fn join_spaced(args: Seq<Seq<char>>) -> Seq<char>
    decreases args.len(),
{
    if args.len() == 0 {
        Seq::empty()
    } else if args.len() == 1 {
        args[0]
    } else {
        args[0] + seq![' '] + join_spaced(args.subrange(1, args.len() as int))
    }
}

proof fn lemma_join_first(args: Seq<Seq<char>>)
    requires
        args.len() > 0,
        forall|i: int| 0 <= i < args.len() ==> (#[trigger] args[i]).len() > 0,
    ensures
        join_spaced(args).len() >= args[0].len() > 0,
        forall|k: int| 0 <= k < args[0].len() ==> join_spaced(args)[k] == args[0][k],
{
}

proof fn lemma_join_chars(args: Seq<Seq<char>>)
    requires
        forall|i: int| 0 <= i < args.len() ==> plain_token(#[trigger] args[i]),
    ensures
        forall|k: int|
            0 <= k < join_spaced(args).len() ==> (#[trigger] join_spaced(args)[k]) != '}',
    decreases args.len(),
{
    if args.len() <= 1 {
    } else {
        let tail = args.subrange(1, args.len() as int);
        assert(forall|i: int| 0 <= i < tail.len() ==> plain_token(#[trigger] tail[i]));
        lemma_join_chars(tail);
        let jt = join_spaced(tail);
        let a0 = args[0];
        assert forall|k: int| 0 <= k < join_spaced(args).len() implies (#[trigger] join_spaced(
            args,
        )[k]) != '}' by {
            if k < a0.len() {
                assert(join_spaced(args)[k] == a0[k]);
            } else if k == a0.len() {
                assert(join_spaced(args)[k] == ' ');
            } else {
                assert(join_spaced(args)[k] == jt[k - a0.len() - 1]);
            }
        }
    }
}

/// Splitting what was joined gives the tokens back: for plain tokens joined
/// by single spaces, argument splitting returns exactly those tokens in
/// order, with no trailing empty entry and nothing left unconsumed.
pub proof fn lemma_split_joined(args: Seq<Seq<char>>)
    requires
        args.len() > 0,
        forall|i: int| 0 <= i < args.len() ==> plain_token(#[trigger] args[i]),
    ensures
        split_args(join_spaced(args)).0 == args,
        split_args(join_spaced(args)).1 == Seq::<char>::empty(),
    decreases args.len(),
{
    let s = join_spaced(args);
    if args.len() == 1 {
        assert(s == args[0]);
        lemma_run_len_is(CharClass::TokenChar, s, s.len());
        let rest = s.subrange(s.len() as int, s.len() as int);
        assert(rest =~= Seq::<char>::empty());
        assert(run_len(CharClass::AsciiSpace, rest) == 0);
        assert(s.subrange(0, s.len() as int) =~= s);
        assert(split_args(s).0 =~= args);
    } else {
        let a0 = args[0];
        let tail = args.subrange(1, args.len() as int);
        assert(forall|i: int| 0 <= i < tail.len() ==> plain_token(#[trigger] tail[i]));
        let jt = join_spaced(tail);
        lemma_join_first(tail);
        assert(s == a0 + seq![' '] + jt);
        assert forall|k: int| 0 <= k < a0.len() implies in_class(
            CharClass::TokenChar,
            #[trigger] s[k],
        ) by {
            assert(s[k] == a0[k]);
        }
        assert(s[a0.len() as int] == ' ');
        lemma_run_len_is(CharClass::TokenChar, s, a0.len());
        let rest = s.subrange(a0.len() as int, s.len() as int);
        assert(rest[0] == ' ');
        assert(rest[1] == jt[0] && jt[0] == tail[0][0]);
        assert(in_class(CharClass::TokenChar, jt[0]));
        lemma_run_len_is(CharClass::AsciiSpace, rest, 1);
        assert(rest.subrange(1, rest.len() as int) =~= jt);
        lemma_split_joined(tail);
        assert(s.subrange(0, a0.len() as int) =~= a0);
        assert(split_args(s).0 =~= args);
    }
}

/// A well-formed include directive is recognized exactly: on
/// `{ path arg1 .. argN }after` — ASCII whitespace allowed around the path,
/// the arguments joined by single spaces, none before the closing
/// delimiter — the directive recognizer yields that path, those arguments in
/// order with no trailing empty entry, no content, and leaves exactly
/// `after` unconsumed.
pub proof fn lemma_well_formed_directive(
    sp_a: Seq<char>,
    path: Seq<char>,
    sp_b: Seq<char>,
    args: Seq<Seq<char>>,
    after: Seq<char>,
)
    requires
        forall|k: int| 0 <= k < sp_a.len() ==> is_ascii_space_char(#[trigger] sp_a[k]),
        forall|k: int| 0 <= k < sp_b.len() ==> is_ascii_space_char(#[trigger] sp_b[k]),
        sp_b.len() > 0,
        path.len() > 0,
        forall|k: int| 0 <= k < path.len() ==> in_class(CharClass::PathChar, #[trigger] path[k]),
        args.len() > 0,
        forall|i: int| 0 <= i < args.len() ==> plain_token(#[trigger] args[i]),
    ensures
        directive_model(seq!['{'] + sp_a + path + sp_b + join_spaced(args) + seq!['}'] + after)
            == Some(
            (
                StatementView::Include(
                    IncludeView { path: path, content: None, arguments: args },
                ),
                after,
            ),
        ),
{
    let jt = join_spaced(args);
    let body = sp_a + path + sp_b + jt;
    let s = seq!['{'] + sp_a + path + sp_b + jt + seq!['}'] + after;
    lemma_join_first(args);
    lemma_join_chars(args);
    assert(s[0] == '{');
    let tail = s.subrange(1, s.len() as int);
    assert(tail =~= body + seq!['}'] + after);
    assert forall|k: int| 0 <= k < body.len() implies in_class(
        CharClass::NotRightGullwing,
        #[trigger] tail[k],
    ) by {
        assert(tail[k] == body[k]);
        if k < sp_a.len() {
            assert(body[k] == sp_a[k]);
        } else if k < sp_a.len() + path.len() {
            assert(body[k] == path[k - sp_a.len()]);
        } else if k < sp_a.len() + path.len() + sp_b.len() {
            assert(body[k] == sp_b[k - sp_a.len() - path.len()]);
        } else {
            assert(body[k] == jt[k - sp_a.len() - path.len() - sp_b.len()]);
        }
    }
    assert(tail[body.len() as int] == '}');
    lemma_run_len_is(CharClass::NotRightGullwing, tail, body.len());
    let gb = tail.subrange(0, body.len() as int);
    assert(gb =~= body);
    assert(tail.subrange(body.len() as int + 1, tail.len() as int) =~= after);
    assert(body.len() >= 3);

    // Path extraction inside the body.
    assert forall|k: int| 0 <= k < sp_a.len() implies is_ascii_space_char(
        #[trigger] body[k],
    ) by {
        assert(body[k] == sp_a[k]);
    }
    assert(body[sp_a.len() as int] == path[0]);
    lemma_run_len_is(CharClass::AsciiSpace, body, sp_a.len());
    let s1 = body.subrange(sp_a.len() as int, body.len() as int);
    assert(s1 =~= path + sp_b + jt);
    assert forall|k: int| 0 <= k < path.len() implies in_class(
        CharClass::PathChar,
        #[trigger] s1[k],
    ) by {
        assert(s1[k] == path[k]);
    }
    assert(s1[path.len() as int] == sp_b[0]);
    lemma_run_len_is(CharClass::PathChar, s1, path.len());
    assert(s1.subrange(0, path.len() as int) =~= path);
    let s2 = s1.subrange(path.len() as int, s1.len() as int);
    assert(s2 =~= sp_b + jt);
    assert forall|k: int| 0 <= k < sp_b.len() implies is_ascii_space_char(
        #[trigger] s2[k],
    ) by {
        assert(s2[k] == sp_b[k]);
    }
    assert(s2[sp_b.len() as int] == jt[0] && jt[0] == args[0][0]);
    assert(in_class(CharClass::TokenChar, jt[0]));
    lemma_run_len_is(CharClass::AsciiSpace, s2, sp_b.len());
    assert(s2.subrange(sp_b.len() as int, s2.len() as int) =~= jt);
    lemma_split_joined(args);
}

} // verus!
