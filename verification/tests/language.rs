//! End-to-end tests of the tokenizer, parser and evaluator.
use vortex_lang::ast::{BinOp, Expr, Stmt};
use vortex_lang::interp::Interpreter;
use vortex_lang::lexer::Lexer;
use vortex_lang::run::run_vortex;
use vortex_lang::token::Token;
use vortex_lang::value::{Value, value_eq};

fn run(src: &str) -> String {
    let mut it = Interpreter::new();
    run_vortex(&mut it, src)
}

fn lex_all(src: &str) -> Vec<Token> {
    let mut lx = Lexer::new(src);
    let mut out = Vec::new();
    loop {
        let t = lx.next_token();
        if matches!(t, Token::EOF) {
            break;
        }
        out.push(t);
    }
    out
}

#[test]
fn lexes_declaration() {
    let toks = lex_all("let mut x = 42 + 5");
    assert_eq!(toks.len(), 7);
    assert!(matches!(toks[0], Token::Let));
    assert!(matches!(toks[1], Token::Mut));
    assert!(matches!(&toks[2], Token::Identifier(s) if s == "x"));
    assert!(matches!(toks[3], Token::Equals));
    assert!(matches!(toks[4], Token::Number(42)));
    assert!(matches!(toks[5], Token::Plus));
    assert!(matches!(toks[6], Token::Number(5)));
}

#[test]
fn lexes_float_and_range() {
    let toks = lex_all("3.14 1..5");
    assert!(matches!(toks[0], Token::Floating(b) if b == (3.14f64).to_bits()));
    assert!(matches!(toks[1], Token::Number(1)));
    assert!(matches!(toks[2], Token::Range));
    assert!(matches!(toks[3], Token::Number(5)));
}

#[test]
fn lexes_comments_strings_and_markers() {
    let toks = lex_all("// greeting\n\"hi\" @gpu @other == => -> !=");
    assert!(matches!(&toks[0], Token::Str(s) if s == "hi"));
    assert!(matches!(toks[1], Token::GPU));
    assert!(matches!(&toks[2], Token::Identifier(s) if s == "@other"));
    assert!(matches!(toks[3], Token::EQ));
    assert!(matches!(toks[4], Token::FatArrow));
    assert!(matches!(toks[5], Token::Arrow));
    assert!(matches!(toks[6], Token::NE));
}

#[test]
fn unknown_character_degrades_to_eof() {
    let toks = lex_all("1 # 2");
    assert_eq!(toks.len(), 1);
    assert!(matches!(toks[0], Token::Number(1)));
}

#[test]
fn oversized_integer_literal_degrades_to_eof() {
    let toks = lex_all("99999999999999999999");
    assert_eq!(toks.len(), 0);
}

#[test]
fn evaluates_simple_binding_chain() {
    assert_eq!(run("let x = 5\nlet y = x + 3\ny"), "8\n");
}

#[test]
fn integer_arithmetic_is_exact() {
    assert_eq!(run("2 + 3"), "5\n");
    assert_eq!(run("7 - 10"), "-3\n");
    assert_eq!(run("6 * 7"), "42\n");
    assert_eq!(run("7 / 2"), "3\n");
    assert_eq!(run("0 - 7 / 2"), "-3\n");
}

#[test]
fn integer_overflow_is_an_error() {
    assert_eq!(
        run("9223372036854775807 + 1"),
        "Runtime error: integer overflow\n"
    );
}

#[test]
fn division_by_integer_zero_errors() {
    assert_eq!(run("1 / 0"), "Runtime error: Division by zero (integer)\n");
}

#[test]
fn division_by_float_zero_errors() {
    assert_eq!(run("1.0 / 0.0"), "Runtime error: Division by zero (float)\n");
}

#[test]
fn range_call_and_infix_agree() {
    assert_eq!(run("range(0, 5)"), run("0..5"));
    assert_eq!(run("0..5"), "0..5\n");
}

#[test]
fn for_loop_binds_in_order() {
    // for i in 0..5: s = s + i   (assignment built directly: the loop body
    // concatenates each index onto an outer string, observing the order)
    let body = Stmt::Block(vec![Stmt::ExprStmt(Expr::Assignment {
        name: "s".to_string(),
        value: Box::new(Expr::Binary {
            left: Box::new(Expr::Ident("s".to_string())),
            op: BinOp::Add,
            right: Box::new(Expr::Ident("i".to_string())),
        }),
    })]);
    let prog = vec![
        Stmt::Let {
            name: "s".to_string(),
            declared_type: None,
            value: Expr::Str(String::new()),
            mutable: true,
        },
        Stmt::For {
            var: "i".to_string(),
            range: Expr::Range {
                start: Box::new(Expr::Number(0)),
                end: Box::new(Expr::Number(5)),
            },
            body: Box::new(body),
        },
        Stmt::ExprStmt(Expr::Ident("s".to_string())),
    ];
    let mut it = Interpreter::new();
    let r = it.interpret(&prog, 1_000_000).unwrap();
    assert!(matches!(r, Some(Value::Str(s)) if s == "01234"));
}

#[test]
fn empty_and_inverted_ranges_iterate_zero_times() {
    for range in ["5..5", "5..0"] {
        // `let` ends the loop body: the statements after it stand outside.
        let src = format!("for i in {}:\n  i\nlet d = \"done\"\nd", range);
        assert_eq!(run(&src), "done\n");
    }
}

#[test]
fn block_scoped_shadowing_does_not_leak() {
    // let x = 1; { let x = 2 }; x   ==> 1
    let prog = vec![
        Stmt::Let {
            name: "x".to_string(),
            declared_type: None,
            value: Expr::Number(1),
            mutable: false,
        },
        Stmt::Block(vec![Stmt::Let {
            name: "x".to_string(),
            declared_type: None,
            value: Expr::Number(2),
            mutable: false,
        }]),
        Stmt::ExprStmt(Expr::Ident("x".to_string())),
    ];
    let mut it = Interpreter::new();
    let r = it.interpret(&prog, 1_000_000).unwrap();
    assert!(matches!(r, Some(Value::Number(1))));
}

#[test]
fn return_inside_nested_if_stops_the_function_only() {
    // fn f(): if true: return 7; return 8  -- then f() followed by 100
    let body = Stmt::Block(vec![
        Stmt::IfStmt {
            condition: Expr::Boolean(true),
            then_branch: Box::new(Stmt::Block(vec![Stmt::Return(Expr::Number(7))])),
            else_branch: None,
        },
        Stmt::Return(Expr::Number(8)),
    ]);
    let prog = vec![
        Stmt::FunctionDef {
            name: "f".to_string(),
            params: vec![],
            return_type: None,
            body: Box::new(body),
            gpu: false,
        },
        Stmt::ExprStmt(Expr::FunctionCall {
            callee: Box::new(Expr::Ident("f".to_string())),
            arguments: vec![],
        }),
    ];
    let mut it = Interpreter::new();
    let r = it.interpret(&prog, 1_000_000).unwrap();
    assert!(matches!(r, Some(Value::Number(7))));
}

#[test]
fn function_call_through_source_text() {
    assert_eq!(run("fn add(a, b):\n  return a + b\nlet r = add(2, 40)\nr"), "42\n");
}

#[test]
fn arity_mismatch_names_function_and_counts() {
    // Inside a `let` initializer the error would be downgraded to a nil
    // binding, so the call stands in an `if` body instead.
    assert_eq!(
        run("fn g(a):\n  return a\nif true:\n  g(1, 2)"),
        "Runtime error: Function 'g' expects 1 arguments, but got 2\n"
    );
}

#[test]
fn branch_and_fallback() {
    assert_eq!(
        run("let x = 5\nbranch x > 10 => print(\"big\")"),
        "Execution completed successfully.\n"
    );
    assert_eq!(
        run("let x = 5\nbranch x > 10 => print(\"big\")\nfallback => print(\"small\")"),
        "small\n"
    );
}

#[test]
fn print_joins_arguments_with_spaces() {
    assert_eq!(run("print(\"a\", 1, true)"), "a 1 true\n");
}

#[test]
fn undefined_identifier_errors() {
    assert_eq!(run("ghost"), "Runtime error: Undefined identifier 'ghost'\n");
}

#[test]
fn parser_placeholder_is_rejected_by_evaluator() {
    let mut it = Interpreter::new();
    let prog = vec![Stmt::ExprStmt(Expr::Ident("error".to_string()))];
    let r = it.interpret(&prog, 1_000_000);
    assert!(r.is_err());
}

#[test]
fn accelerated_fallback_matches_sequential() {
    // The same loop, accelerated with no runtime available versus plain
    // sequential: identical final bindings.
    let mk_body = || {
        Stmt::Block(vec![Stmt::ExprStmt(Expr::Assignment {
            name: "s".to_string(),
            value: Box::new(Expr::Binary {
                left: Box::new(Expr::Ident("s".to_string())),
                op: BinOp::Add,
                right: Box::new(Expr::Ident("i".to_string())),
            }),
        })])
    };
    let mk_prog = |parallel: bool| {
        let range = Expr::Range {
            start: Box::new(Expr::Number(0)),
            end: Box::new(Expr::Number(4)),
        };
        let loop_stmt = if parallel {
            Stmt::Parallel {
                var: "i".to_string(),
                range,
                body: Box::new(mk_body()),
            }
        } else {
            Stmt::For {
                var: "i".to_string(),
                range,
                body: Box::new(mk_body()),
            }
        };
        vec![
            Stmt::Let {
                name: "s".to_string(),
                declared_type: None,
                value: Expr::Number(0),
                mutable: true,
            },
            loop_stmt,
            Stmt::ExprStmt(Expr::Ident("s".to_string())),
        ]
    };
    let mut seq = Interpreter::new();
    let r_seq = seq.interpret(&mk_prog(false), 1_000_000).unwrap();
    let mut par = Interpreter::new();
    par.gpu_runtime.available = false;
    let r_par = par.interpret(&mk_prog(true), 1_000_000).unwrap();
    match (r_seq, r_par) {
        (Some(a), Some(b)) => assert!(value_eq(&a, &b) && matches!(a, Value::Number(6))),
        other => panic!("unexpected results: {:?}", other.0.is_some()),
    }
}

#[test]
fn accelerated_success_performs_no_bindings() {
    // With the runtime available the concurrent attempt is a pure
    // simulation: the loop body's assignments never run.
    assert_eq!(
        run("let mut s = 0\nparallel i in 0..4:\n  s + i\nlet t = s\nt"),
        "0\n"
    );
}

#[test]
fn gpu_function_kernel_and_registry() {
    let src = "@gpu fn add_gpu(a: Int, b: Int):\n  return a + b\nlet r = add_gpu(40, 2)\nr";
    assert_eq!(run(src), "42\n");
    // A registered kernel other than `add_gpu` yields nil, and a nil value
    // leaves the last produced value untouched.
    let src2 = "@gpu fn other(a: Int):\n  return a\nlet r = other(1)\nr";
    assert_eq!(run(src2), "Execution completed successfully.\n");
}

#[test]
fn persistent_interpreter_accumulates_bindings() {
    let mut it = Interpreter::new();
    assert_eq!(
        run_vortex(&mut it, "let x = 41"),
        "Execution completed successfully.\n"
    );
    assert_eq!(run_vortex(&mut it, "x + 1"), "42\n");
}

#[test]
fn if_then_else_chain() {
    assert_eq!(run("let x = 5\nif x > 10:\n  1\nelse:\n  2"), "2\n");
    assert_eq!(run("let x = 15\nif x > 10:\n  1\nelse:\n  2"), "1\n");
    assert_eq!(run("let x = 7\nif x > 10:\n  1\nthen x > 5:\n  2\nelse:\n  3"), "2\n");
}

#[test]
fn renders_values() {
    assert_eq!(run("true"), "true\n");
    assert_eq!(run("\"hi\""), "hi\n");
    assert_eq!(run("0 - 12"), "-12\n");
}

#[test]
fn literal_round_trip_int_and_bool() {
    for v in [Value::Number(0), Value::Number(417), Value::Boolean(true), Value::Boolean(false)] {
        let text = v.to_display_string();
        let toks = lex_all(&text);
        assert_eq!(toks.len(), 1);
        match (&v, &toks[0]) {
            (Value::Number(n), Token::Number(m)) => assert_eq!(n, m),
            (Value::Boolean(a), Token::Boolean(b)) => assert_eq!(a, b),
            _ => panic!("token kind changed in round trip"),
        }
    }
}

#[test]
fn literal_round_trip_float() {
    // A whole-valued double renders without a decimal point (as `123`), so
    // it re-tokenizes as an integer: such values are the round-trip law's
    // excluded inputs.  Fractional doubles round-trip exactly.
    for f in [1.5f64, 0.25, 3.75, 123.625] {
        let v = Value::Floating(f.to_bits());
        let text = v.to_display_string();
        let toks = lex_all(&text);
        assert_eq!(toks.len(), 1, "render of {} was {:?}", f, text);
        match &toks[0] {
            Token::Floating(b) => assert_eq!(*b, f.to_bits(), "render was {:?}", text),
            other => panic!("not a float token: {:?} from {:?}", other, text),
        }
    }
}

#[test]
fn float_arithmetic_matches_hardware() {
    let mut it = Interpreter::new();
    let prog = vec![Stmt::ExprStmt(Expr::Binary {
        left: Box::new(Expr::Floating((1.5f64).to_bits())),
        op: BinOp::Add,
        right: Box::new(Expr::Floating((2.25f64).to_bits())),
    })];
    let r = it.interpret(&prog, 1_000_000).unwrap();
    assert!(matches!(r, Some(Value::Floating(b)) if b == (3.75f64).to_bits()));
}

#[test]
fn mixed_numeric_comparison_promotes() {
    assert_eq!(run("1 < 1.5"), "true\n");
    assert_eq!(run("2.5 >= 3"), "false\n");
    assert_eq!(run("1 == 1.0"), "false\n");
}

#[test]
fn string_concatenation() {
    assert_eq!(run("\"n=\" + 4"), "n=4\n");
    assert_eq!(run("\"a\" + \"b\""), "ab\n");
}

#[test]
fn partition_chunks_cover_the_range() {
    let chunks = vortex_lang::gpu::partition_chunks(0, 10, 4);
    assert_eq!(chunks, vec![(0, 3), (3, 6), (6, 9), (9, 10)]);
    let chunks = vortex_lang::gpu::partition_chunks(0, 2, 4);
    assert_eq!(chunks, vec![(0, 1), (1, 2)]);
    let chunks = vortex_lang::gpu::partition_chunks(5, 5, 4);
    assert!(chunks.is_empty());
}

#[test]
fn only_false_and_nil_are_falsy() {
    assert_eq!(run("if 0:\n  1\nelse:\n  2"), "1\n");
    assert_eq!(run("if 0.0:\n  1\nelse:\n  2"), "1\n");
    assert_eq!(run("if \"\":\n  1\nelse:\n  2"), "1\n");
    assert_eq!(run("if false:\n  1\nelse:\n  2"), "2\n");
    assert_eq!(run("branch 0 => print(\"ran\")"), "ran\n");
}

#[test]
fn chained_then_clauses() {
    let src = "let x = 3\nif x > 10:\n  1\nthen x > 5:\n  2\nthen x > 2:\n  3\nelse:\n  4";
    assert_eq!(run(src), "3\n");
    let src2 = "let x = 0\nif x > 10:\n  1\nthen x > 5:\n  2\nthen x > 2:\n  3\nelse:\n  4";
    assert_eq!(run(src2), "4\n");
}

#[test]
fn else_body_may_hold_an_if() {
    let src = "let x = 1\nif x > 10:\n  1\nelse:\n  if x > 0:\n    42";
    assert_eq!(run(src), "42\n");
}

#[test]
fn function_values_compare_by_body_too() {
    let mk = |n: i64| Value::Function {
        name: "f".to_string(),
        params: vec!["a".to_string()],
        body: Box::new(Stmt::Return(Expr::Number(n))),
        gpu: false,
        env: 0,
    };
    assert!(value_eq(&mk(1), &mk(1)));
    assert!(!value_eq(&mk(1), &mk(2)));
}

#[test]
fn larger_floats_render_in_plain_decimal() {
    let v = Value::Floating((10000.5f64).to_bits());
    assert_eq!(v.to_display_string(), "10000.5");
    let toks = lex_all(&v.to_display_string());
    assert!(matches!(toks[0], Token::Floating(b) if b == (10000.5f64).to_bits()));
}

#[test]
fn partition_uses_at_most_one_chunk_per_worker() {
    let chunks = vortex_lang::gpu::partition_chunks(0, 100, 4);
    assert_eq!(chunks.len(), 4);
    assert!(chunks.iter().all(|c| c.1 - c.0 == 25));
    let chunks = vortex_lang::gpu::partition_chunks(0, 3, 8);
    assert!(chunks.len() <= 8);
    assert_eq!(chunks, vec![(0, 1), (1, 2), (2, 3)]);
}
