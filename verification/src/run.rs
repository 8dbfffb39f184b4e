//! The core entry point: run program text against a persistent evaluator
//! and hand back one line of output — a produced value's rendering, a fixed
//! completion marker, or an error message.
use vstd::prelude::*;

use crate::ast::{Stmt, view_stmts};
use crate::interp::{Interpreter, StateV, spec_interpret};
use crate::lexer::{Lexer, spec_next_token, token_at, skip_trivia, lemma_skip_trivia_range,
    lemma_scan_digits_range, lemma_scan_ident_range, lemma_scan_str_range};
use crate::parser::{Parser, spec_parse_program};
use crate::token::{Token, TokenV, view_tokens, lemma_view_tokens};
use crate::value::render_value;

verus! {

broadcast use vstd::std_specs::vec::group_vec_axioms;

/// The depth bound handed to the evaluator for one run.
pub open spec fn run_fuel() -> nat {
    1000000nat
}

/// The token list of a source text: tokens scanned one after another until
/// the first end-of-input token.
pub open spec fn spec_tokenize(s: Seq<char>, pos: int) -> Seq<TokenV>
    decreases s.len() - pos,
{
    let (t, p) = spec_next_token(s, pos);
    if t is EOF {
        Seq::empty()
    } else if pos < p <= s.len() {
        seq![t] + spec_tokenize(s, p)
    } else {
        seq![t]
    }
}

/// A token other than end-of-input always consumes at least one character.
pub proof fn lemma_token_progress(s: Seq<char>, pos: int)
    requires
        0 <= pos <= s.len(),
    ensures
        !(spec_next_token(s, pos).0 is EOF) ==> pos < spec_next_token(s, pos).1 <= s.len(),
{
    lemma_skip_trivia_range(s, pos);
    let q = skip_trivia(s, pos);
    if 0 <= q < s.len() {
        let c = s[q];
        if c == '"' {
            lemma_scan_str_range(s, q + 1);
        } else if crate::text::is_digit(c) {
            lemma_scan_digits_range(s, q + 1);
            let d1 = crate::lexer::scan_digits(s, q);
            assert(d1 == crate::lexer::scan_digits(s, q + 1));
            if d1 < s.len() && s[d1] == '.' && !(d1 + 1 < s.len() && s[d1 + 1] == '.') {
                lemma_scan_digits_range(s, d1 + 1);
            }
        } else if c == '@' {
            lemma_scan_ident_range(s, q + 1);
        } else if crate::lexer::is_ident_start(c) {
            lemma_scan_ident_range(s, q + 1);
            assert(crate::lexer::scan_ident(s, q) == crate::lexer::scan_ident(s, q + 1));
        }
    }
}

/// What one run of program text yields: the evaluator state afterwards and
/// the output line.
pub open spec fn spec_run(st: StateV, input: Seq<char>) -> (StateV, Seq<char>) {
    let toks = spec_tokenize(input, 0);
    let prog = spec_parse_program(toks, 0);
    let (st2, r) = spec_interpret(st, prog, None, run_fuel());
    let out = match r {
        Ok(Some(v)) => render_value(v) + "\n"@,
        Ok(None) => "Execution completed successfully.\n"@,
        Err(m) => "Runtime error: "@ + m + "\n"@,
    };
    (st2, out)
}

/// Tokenizes, parses and interprets `input` against the evaluator's
/// accumulated bindings, and hands back the run's output line.
pub fn run_vortex(it: &mut Interpreter, input: &str) -> (out: String)
    requires
        old(it).wfs(),
    ensures
        final(it).wfs(),
        final(it).view() == spec_run(old(it).view(), input@).0,
        out@ == spec_run(old(it).view(), input@).1,
{
    let mut lexer = Lexer::new(input);
    let mut tokens: Vec<Token> = Vec::new();
    proof {
        lemma_view_tokens(tokens@);
        assert(view_tokens(tokens@) =~= Seq::<TokenV>::empty());
    }
    loop
        invariant_except_break
            view_tokens(tokens@) + spec_tokenize(input@, lexer.position as int) == spec_tokenize(
                input@,
                0,
            ),
        invariant
            lexer.input@ == input@,
            lexer.position <= lexer.input@.len(),
        ensures
            view_tokens(tokens@) == spec_tokenize(input@, 0),
        decreases lexer.input@.len() - lexer.position,
    {
        let ghost pos0 = lexer.position as int;
        proof {
            lemma_token_progress(input@, pos0);
        }
        let tok = lexer.next_token();
        let is_eof = match &tok {
            Token::EOF => true,
            _ => false,
        };
        if is_eof {
            proof {
                assert(spec_tokenize(input@, pos0) =~= Seq::<TokenV>::empty());
                assert(view_tokens(tokens@) + spec_tokenize(input@, pos0) =~= view_tokens(
                    tokens@,
                ));
            }
            break ;
        }
        let ghost snap = tokens@;
        let ghost tv = tok.view();
        tokens.push(tok);
        proof {
            lemma_view_tokens(tokens@);
            lemma_view_tokens(snap);
            assert(view_tokens(tokens@) =~= view_tokens(snap).push(tv));
            assert(spec_tokenize(input@, pos0) =~= seq![tv] + spec_tokenize(
                input@,
                lexer.position as int,
            ));
            assert(view_tokens(tokens@) + spec_tokenize(input@, lexer.position as int)
                =~= view_tokens(snap) + spec_tokenize(input@, pos0));
        }
    }
    let mut parser = Parser::new(tokens);
    let program: Vec<Stmt> = parser.parse();
    let result = it.interpret(&program, 1000000u64);
    match result {
        Ok(Some(v)) => {
            let mut out = v.to_display_string();
            out.append("\n");
            out
        },
        Ok(None) => String::from_str("Execution completed successfully.\n"),
        Err(m) => {
            let mut out = String::from_str("Runtime error: ");
            out.append(m.as_str());
            out.append("\n");
            out
        },
    }
}

} // verus!
