//! Scanner for preprocessor-level constructs of a legacy 4GL-style source
//! language: block comments delimited by `/*` and `*/`, and include
//! directives delimited by `{` and `}`. Everything else in the input is
//! opaque text that the scanner skips.

use vstd::prelude::*;

pub mod combinators;
pub mod laws;
pub mod model;
pub mod tokens;

use crate::combinators::{parse_comment, parse_include, skip_to_comment_or_include, take_run};
use crate::model::{CharClass, dispatch_model, lemma_dispatch_progress, scan_model};
use crate::tokens::{Statement, lemma_stmts_view_push, stmts_view};

verus! {

/// The dispatcher: the single entry point for recognizing one statement at
/// the current position. Trims leading ASCII whitespace, inspects the next
/// character without consuming it, and routes to the comment recognizer on
/// `/`, to the directive recognizer on `{`, and to the skip-scanner on
/// anything else; whitespace after the recognized statement is trimmed too.
pub fn parse_input<'a>(input: &'a str) -> (r: Option<(Statement<'a>, &'a str)>)
    ensures
        match r {
            Some(sr) => dispatch_model(input@) == Some((sr.0@, sr.1@)),
            None => dispatch_model(input@) is None,
        },
{
    let len = input.unicode_len();
    let t = take_run(CharClass::AsciiSpace, input);
    let s1 = input.substring_char(t, len);
    if t == len {
        return None;
    }
    let c = s1.get_char(0);
    let routed = if c == '/' {
        parse_comment(s1)
    } else if c == '{' {
        parse_include(s1)
    } else {
        skip_to_comment_or_include(s1)
    };
    match routed {
        None => None,
        Some((st, rest)) => {
            let rlen = rest.unicode_len();
            let t2 = take_run(CharClass::AsciiSpace, rest);
            let trimmed = rest.substring_char(t2, rlen);
            Some((st, trimmed))
        },
    }
}

/// The statement stream driver: apply the dispatcher across the whole input,
/// collecting every recognized statement in order, and stop as soon as the
/// dispatcher fails. A failure to recognize further statements simply ends
/// the sequence; it is not an error.
pub fn parse_procedure<'a>(input: &'a str) -> (r: Vec<Statement<'a>>)
    ensures
        stmts_view(r@) == scan_model(input@),
{
    let mut result: Vec<Statement<'a>> = Vec::new();
    let mut cur: &'a str = input;
    proof {
        assert(stmts_view(result@) == Seq::<crate::tokens::StatementView>::empty());
        assert(scan_model(input@) =~= stmts_view(result@) + scan_model(cur@));
    }
    loop
        invariant
            scan_model(input@) == stmts_view(result@) + scan_model(cur@),
        decreases cur@.len(),
    {
        let ghost result_before = result@;
        match parse_input(cur) {
            None => {
                proof {
                    assert(scan_model(cur@) =~= Seq::<crate::tokens::StatementView>::empty());
                    assert(stmts_view(result@) =~= scan_model(input@));
                }
                return result;
            },
            Some((st, rest)) => {
                proof {
                    lemma_dispatch_progress(cur@);
                    lemma_stmts_view_push(result_before, st);
                }
                result.push(st);
                cur = rest;
                proof {
                    assert(scan_model(input@) =~= stmts_view(result@) + scan_model(cur@));
                }
            },
        }
    }
}

} // verus!
