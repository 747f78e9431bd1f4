//! The formula parser: splits a formula of the shape `=FUNC(ARG)` into an
//! upper-cased function name and a raw, trimmed argument string. Only the
//! first `(` and the final `)` act as delimiters; the argument's own grammar
//! is the caller's concern, and no whitelist of function names is applied.

use vstd::prelude::*;
use crate::text::{
    chars_of, find_char, find_first, is_space, lemma_find_first, lemma_find_first_at,
    lemma_ltrim_concat, lemma_ltrim_idempotent, lemma_ltrim_no_char, ltrim, rtrim, spec_trim,
    spec_upper, string_of, subvec, trim_chars, upper_chars,
};

verus! {

/// Why a formula failed to parse.
#[derive(Clone, Copy, Debug, PartialEq, Eq, Structural)]
pub enum ParseError {
    /// The trimmed formula does not start with `=`.
    MissingLeadingEquals,
    /// The formula body contains no `(`.
    MissingOpenParen,
    /// The formula body does not end with `)`.
    MissingCloseParen,
}

/// A well-formed formula, split into its upper-cased function name and its
/// trimmed argument text.
#[derive(Debug)]
pub struct ParsedFormula {
    pub function_name: String,
    pub argument: String,
}

/// What parsing a formula yields: the function-name and argument character
/// sequences on success, or the first validation failure.
pub open spec fn spec_parse(s: Seq<char>) -> Result<(Seq<char>, Seq<char>), ParseError> {
    let t = spec_trim(s);
    if !(t.len() > 0 && t[0] == '=') {
        Err(ParseError::MissingLeadingEquals)
    } else {
        let body = spec_trim(t.skip(1));
        let p = find_first(body, '(');
        if p < 0 {
            Err(ParseError::MissingOpenParen)
        } else if !(body.len() > 0 && body.last() == ')') {
            Err(ParseError::MissingCloseParen)
        } else {
            Ok(
                (
                    spec_upper(spec_trim(body.take(p))),
                    spec_trim(body.subrange(p + 1, body.len() - 1)),
                ),
            )
        }
    }
}

/// Parse a formula of the shape `=FUNC(ARG)`.
///
/// The whole input is trimmed; it must start with `=`; the body after `=` is
/// trimmed again and must contain a `(` and end with `)`. The function name
/// is the trimmed, upper-cased text before the first `(`; the argument is the
/// trimmed text strictly between the first `(` and the final `)`, and may be
/// empty.
pub fn parse_formula(formula: &str) -> (r: Result<ParsedFormula, ParseError>)
    ensures
        ({
            let sp = spec_parse(formula@);
            match r {
                Ok(p) => sp matches Ok(v) && p.function_name@ == v.0 && p.argument@ == v.1,
                Err(e) => sp == Err::<(Seq<char>, Seq<char>), ParseError>(e),
            }
        }),
{
    let cs = chars_of(formula);
    let t = trim_chars(&cs);
    if t.len() == 0 || t[0] != '=' {
        return Err(ParseError::MissingLeadingEquals);
    }
    let body_raw = subvec(&t, 1, t.len());
    proof {
        assert(body_raw@ =~= t@.skip(1));
    }
    let body = trim_chars(&body_raw);
    match find_char(&body, '(') {
        None => Err(ParseError::MissingOpenParen),
        Some(p) => {
            proof {
                lemma_find_first(body@, '(');
            }
            if body[body.len() - 1] != ')' {
                return Err(ParseError::MissingCloseParen);
            }
            // The first `(` cannot be the final `)`, so the argument range
            // between them is well formed (though possibly empty).
            let name_raw = subvec(&body, 0, p);
            let name_trimmed = trim_chars(&name_raw);
            let name_upper = upper_chars(&name_trimmed);
            let arg_raw = subvec(&body, p + 1, body.len() - 1);
            let arg_trimmed = trim_chars(&arg_raw);
            proof {
                assert(name_raw@ =~= body@.take(p as int));
                assert(arg_raw@ =~= body@.subrange(p as int + 1, body@.len() - 1));
            }
            Ok(
                ParsedFormula {
                    function_name: string_of(&name_upper),
                    argument: string_of(&arg_trimmed),
                },
            )
        },
    }
}

/// A well-formed formula parses as expected: for a formula written
/// `=F(A)`, where `F` contains no `(`, parsing succeeds with function name
/// `upper(trim(F))` and argument `trim(A)` — for all trimmed and case
/// variants of `F`.
pub proof fn lemma_parse_well_formed(f: Seq<char>, a: Seq<char>)
    requires
        forall|i: int| 0 <= i < f.len() ==> f[i] != '(',
    ensures
        spec_parse(seq!['='] + f + seq!['('] + a + seq![')']) == Ok::<
            (Seq<char>, Seq<char>),
            ParseError,
        >((spec_upper(spec_trim(f)), spec_trim(a))),
{
    let s = seq!['='] + f + seq!['('] + a + seq![')'];
    assert(s[0] == '=');
    assert(s.last() == ')');
    assert(!is_space('=') && !is_space(')'));
    assert(ltrim(s) == s);
    assert(rtrim(s) == s);
    let rest = seq!['('] + a + seq![')'];
    assert(s.skip(1) =~= f + rest);
    assert(rest[0] == '(');
    lemma_ltrim_concat(f, rest);
    let body = ltrim(f) + rest;
    assert(body.last() == ')');
    assert(rtrim(body) == body);
    assert(spec_trim(s.skip(1)) == body);
    let p = ltrim(f).len() as int;
    lemma_ltrim_no_char(f, '(');
    assert(body[p] == '(');
    assert forall|i: int| 0 <= i < p implies body[i] != '(' by {
        assert(body[i] == ltrim(f)[i]);
    }
    lemma_find_first_at(body, '(', p);
    assert(body.take(p) =~= ltrim(f));
    lemma_ltrim_idempotent(f);
    assert(spec_trim(body.take(p)) == rtrim(ltrim(f)));
    assert(body.subrange(p + 1, body.len() - 1) =~= a);
}

} // verus!
