use lang::grammar::{ParseError, Symbol};
use lang::parse::{
    consume, consume_tk, expect, expect_number, expr, find_lvar, function, local_var, program,
    stmt, LVar, Node,
};
use lang::tokenize::{tokenize, Token, TokenKind};
use std::collections::VecDeque;

fn tokens(src: &str) -> VecDeque<Token> {
    tokenize(src.chars().collect()).unwrap()
}

fn parse(src: &str) -> Result<Vec<Node>, ParseError> {
    program(&mut tokens(src))
}

fn show(node: &Node) -> String {
    format!("{:?}", node)
}

fn num(v: u32) -> Node {
    Node::ND_NUM(v)
}

fn var(offset: u32) -> Node {
    Node::ND_LVAR { offset }
}

fn bx(node: Node) -> Box<Node> {
    Box::new(node)
}

fn expression(src: &str) -> Node {
    let mut toks = tokens(src);
    let mut lvars = VecDeque::new();
    let node = expr(&mut toks, &mut lvars).unwrap();
    assert!(toks.is_empty());
    node
}

fn statement(src: &str) -> Node {
    let mut toks = tokens(src);
    let mut lvars = VecDeque::new();
    let node = stmt(&mut toks, &mut lvars).unwrap();
    assert!(toks.is_empty());
    node
}

fn statement_error(src: &str) -> ParseError {
    let mut toks = tokens(src);
    let mut lvars = VecDeque::new();
    stmt(&mut toks, &mut lvars).unwrap_err()
}

#[test]
fn empty_program_has_no_functions() {
    assert!(parse("").unwrap().is_empty());
}

#[test]
fn sum_of_products_scenario() {
    let funcs = parse("a(){ x=3; y=5; return x+y*2; }").unwrap();
    assert_eq!(funcs.len(), 1);
    let expected = Node::ND_FUNCTION {
        name: String::from("a"),
        body: vec![
            Node::ND_ASSIGN { lhs: bx(var(0)), rhs: bx(num(3)) },
            Node::ND_ASSIGN { lhs: bx(var(8)), rhs: bx(num(5)) },
            Node::ND_RETURN {
                ret: bx(Node::ND_ADD {
                    lhs: bx(var(0)),
                    rhs: bx(Node::ND_MUL { lhs: bx(var(8)), rhs: bx(num(2)) }),
                }),
            },
        ],
        parameters: VecDeque::new(),
        stack_size: 16,
    };
    assert_eq!(show(&funcs[0]), show(&expected));
}

#[test]
fn recursive_function_scenario() {
    let funcs = parse("f(n){ if(n<2) return n; return f(n-1)+f(n-2); }").unwrap();
    let call = |k: u32| Node::ND_FUNCALL {
        name: String::from("f"),
        args: vec![Node::ND_SUB { lhs: bx(var(0)), rhs: bx(num(k)) }],
    };
    let expected = Node::ND_FUNCTION {
        name: String::from("f"),
        body: vec![
            Node::ND_IF {
                cond: bx(Node::ND_LT { lhs: bx(var(0)), rhs: bx(num(2)) }),
                cons: bx(Node::ND_RETURN { ret: bx(var(0)) }),
                alt: bx(Node::ND_NOTHING),
            },
            Node::ND_RETURN { ret: bx(Node::ND_ADD { lhs: bx(call(1)), rhs: bx(call(2)) }) },
        ],
        parameters: VecDeque::from(vec![var(0)]),
        stack_size: 8,
    };
    assert_eq!(show(&funcs[0]), show(&expected));
}

#[test]
fn functions_come_in_source_order() {
    let funcs = parse("one(){return 1;} two(){return 2;} three(){return 3;}").unwrap();
    let names: Vec<String> = funcs
        .iter()
        .map(|f| match f {
            Node::ND_FUNCTION { name, .. } => name.clone(),
            _ => panic!("not a function"),
        })
        .collect();
    assert_eq!(names, vec!["one", "two", "three"]);
}

#[test]
fn multiplication_binds_tighter_than_addition() {
    let expected = Node::ND_SUB {
        lhs: bx(Node::ND_ADD {
            lhs: bx(num(1)),
            rhs: bx(Node::ND_MUL { lhs: bx(num(2)), rhs: bx(num(3)) }),
        }),
        rhs: bx(Node::ND_DIV { lhs: bx(num(4)), rhs: bx(num(5)) }),
    };
    assert_eq!(show(&expression("1+2*3-4/5")), show(&expected));
}

#[test]
fn binary_operators_group_from_the_left() {
    let expected = Node::ND_SUB {
        lhs: bx(Node::ND_SUB { lhs: bx(num(1)), rhs: bx(num(2)) }),
        rhs: bx(num(3)),
    };
    assert_eq!(show(&expression("1-2-3")), show(&expected));
    let expected = Node::ND_DIV {
        lhs: bx(Node::ND_DIV { lhs: bx(num(8)), rhs: bx(num(4)) }),
        rhs: bx(num(2)),
    };
    assert_eq!(show(&expression("8/4/2")), show(&expected));
    let expected = Node::ND_NE {
        lhs: bx(Node::ND_EQ { lhs: bx(num(1)), rhs: bx(num(2)) }),
        rhs: bx(num(3)),
    };
    assert_eq!(show(&expression("1==2!=3")), show(&expected));
}

#[test]
fn parentheses_group() {
    let expected = Node::ND_MUL {
        lhs: bx(Node::ND_ADD { lhs: bx(num(1)), rhs: bx(num(2)) }),
        rhs: bx(num(3)),
    };
    assert_eq!(show(&expression("(1+2)*3")), show(&expected));
}

#[test]
fn assignment_groups_from_the_right() {
    let expected = Node::ND_ASSIGN {
        lhs: bx(var(0)),
        rhs: bx(Node::ND_ASSIGN { lhs: bx(var(8)), rhs: bx(num(1)) }),
    };
    assert_eq!(show(&expression("a=b=1")), show(&expected));
}

#[test]
fn greater_than_swaps_its_operands() {
    let lt = Node::ND_LT { lhs: bx(num(2)), rhs: bx(num(1)) };
    assert_eq!(show(&expression("1>2")), show(&lt));
    let le = Node::ND_LE { lhs: bx(num(2)), rhs: bx(num(1)) };
    assert_eq!(show(&expression("1>=2")), show(&le));
    let lt = Node::ND_LT { lhs: bx(num(1)), rhs: bx(num(2)) };
    assert_eq!(show(&expression("1<2")), show(&lt));
    let le = Node::ND_LE { lhs: bx(num(1)), rhs: bx(num(2)) };
    assert_eq!(show(&expression("1<=2")), show(&le));
    let chain = Node::ND_LT {
        lhs: bx(num(3)),
        rhs: bx(Node::ND_LT { lhs: bx(num(1)), rhs: bx(num(2)) }),
    };
    assert_eq!(show(&expression("1<2>3")), show(&chain));
}

#[test]
fn comparison_binds_looser_than_arithmetic() {
    let expected = Node::ND_EQ {
        lhs: bx(Node::ND_LT {
            lhs: bx(Node::ND_ADD { lhs: bx(num(1)), rhs: bx(num(2)) }),
            rhs: bx(num(4)),
        }),
        rhs: bx(num(1)),
    };
    assert_eq!(show(&expression("1+2<4==1")), show(&expected));
}

#[test]
fn unary_minus_is_zero_minus() {
    let expected = Node::ND_SUB { lhs: bx(num(0)), rhs: bx(num(5)) };
    assert_eq!(show(&expression("-5")), show(&expected));
    let expected = Node::ND_MUL {
        lhs: bx(num(2)),
        rhs: bx(Node::ND_SUB { lhs: bx(num(0)), rhs: bx(var(0)) }),
    };
    assert_eq!(show(&expression("2*-x")), show(&expected));
}

#[test]
fn unary_plus_passes_through() {
    assert_eq!(show(&expression("+5")), show(&num(5)));
    assert_eq!(show(&expression("+(1)")), show(&num(1)));
}

#[test]
fn a_sign_takes_one_operand_only() {
    let mut toks = tokens("--5");
    let mut lvars = VecDeque::new();
    assert_eq!(
        expr(&mut toks, &mut lvars).unwrap_err(),
        ParseError::MissingNumber { at_end: false }
    );
    let mut toks = tokens("+-5");
    assert_eq!(
        expr(&mut toks, &mut lvars).unwrap_err(),
        ParseError::MissingNumber { at_end: false }
    );
}

#[test]
fn variables_get_slots_in_order_of_first_appearance() {
    let funcs = parse("f(){ a=1; b=2; a=b; c=a+b; return c; }").unwrap();
    let expected_body = vec![
        Node::ND_ASSIGN { lhs: bx(var(0)), rhs: bx(num(1)) },
        Node::ND_ASSIGN { lhs: bx(var(8)), rhs: bx(num(2)) },
        Node::ND_ASSIGN { lhs: bx(var(0)), rhs: bx(var(8)) },
        Node::ND_ASSIGN {
            lhs: bx(var(16)),
            rhs: bx(Node::ND_ADD { lhs: bx(var(0)), rhs: bx(var(8)) }),
        },
        Node::ND_RETURN { ret: bx(var(16)) },
    ];
    match &funcs[0] {
        Node::ND_FUNCTION { body, stack_size, .. } => {
            assert_eq!(*stack_size, 24);
            assert_eq!(format!("{:?}", body), format!("{:?}", expected_body));
        }
        _ => panic!("not a function"),
    }
}

#[test]
fn frame_counts_parameters_and_locals() {
    let funcs = parse("f(a,b,c){ d = a; return d + b + c; } g(){ return 1; } h(x){ return x; }")
        .unwrap();
    let sizes: Vec<u32> = funcs
        .iter()
        .map(|f| match f {
            Node::ND_FUNCTION { stack_size, .. } => *stack_size,
            _ => panic!("not a function"),
        })
        .collect();
    assert_eq!(sizes, vec![32, 0, 8]);
    match &funcs[0] {
        Node::ND_FUNCTION { parameters, .. } => {
            assert_eq!(format!("{:?}", parameters), format!("{:?}", vec![var(0), var(8), var(16)]));
        }
        _ => panic!("not a function"),
    }
}

#[test]
fn variables_are_local_to_their_function() {
    let funcs = parse("f(){ a=1; b=2; return b; } g(){ b=3; return b; }").unwrap();
    match &funcs[1] {
        Node::ND_FUNCTION { body, stack_size, .. } => {
            assert_eq!(*stack_size, 8);
            assert_eq!(show(&body[1]), show(&Node::ND_RETURN { ret: bx(var(0)) }));
        }
        _ => panic!("not a function"),
    }
}

#[test]
fn a_name_before_a_parenthesis_is_a_call() {
    let funcs = parse("f(x){ return x(1) + x; }").unwrap();
    let expected = Node::ND_RETURN {
        ret: bx(Node::ND_ADD {
            lhs: bx(Node::ND_FUNCALL { name: String::from("x"), args: vec![num(1)] }),
            rhs: bx(var(0)),
        }),
    };
    match &funcs[0] {
        Node::ND_FUNCTION { body, stack_size, .. } => {
            assert_eq!(*stack_size, 8);
            assert_eq!(show(&body[0]), show(&expected));
        }
        _ => panic!("not a function"),
    }
}

#[test]
fn a_called_name_takes_no_slot() {
    let funcs = parse("f(){ return g(); }").unwrap();
    match &funcs[0] {
        Node::ND_FUNCTION { stack_size, .. } => assert_eq!(*stack_size, 0),
        _ => panic!("not a function"),
    }
}

#[test]
fn call_arguments_keep_their_order() {
    let expected = Node::ND_FUNCALL {
        name: String::from("f"),
        args: vec![
            num(1),
            Node::ND_ADD { lhs: bx(num(2)), rhs: bx(num(3)) },
            Node::ND_ASSIGN { lhs: bx(var(0)), rhs: bx(num(4)) },
        ],
    };
    assert_eq!(show(&expression("f(1, 2+3, a=4)")), show(&expected));
    let empty = Node::ND_FUNCALL { name: String::from("f"), args: vec![] };
    assert_eq!(show(&expression("f()")), show(&empty));
}

#[test]
fn if_without_else_has_an_empty_alternative() {
    let expected = Node::ND_IF {
        cond: bx(num(1)),
        cons: bx(num(2)),
        alt: bx(Node::ND_NOTHING),
    };
    assert_eq!(show(&statement("if (1) 2;")), show(&expected));
}

#[test]
fn else_belongs_to_the_nearest_if() {
    let expected = Node::ND_IF {
        cond: bx(num(1)),
        cons: bx(Node::ND_IF { cond: bx(num(2)), cons: bx(num(3)), alt: bx(num(4)) }),
        alt: bx(Node::ND_NOTHING),
    };
    assert_eq!(show(&statement("if (1) if (2) 3; else 4;")), show(&expected));
    let expected = Node::ND_IF { cond: bx(num(1)), cons: bx(num(2)), alt: bx(num(3)) };
    assert_eq!(show(&statement("if (1) 2; else 3;")), show(&expected));
}

#[test]
fn while_has_condition_and_body() {
    let expected = Node::ND_WHILE {
        cond: bx(Node::ND_LT { lhs: bx(var(0)), rhs: bx(num(10)) }),
        body: bx(Node::ND_ASSIGN {
            lhs: bx(var(0)),
            rhs: bx(Node::ND_ADD { lhs: bx(var(0)), rhs: bx(num(1)) }),
        }),
    };
    assert_eq!(show(&statement("while (i < 10) i = i + 1;")), show(&expected));
}

#[test]
fn for_with_all_clauses() {
    let expected = Node::ND_FOR {
        init: bx(Node::ND_ASSIGN { lhs: bx(var(0)), rhs: bx(num(0)) }),
        cond: bx(Node::ND_LT { lhs: bx(var(0)), rhs: bx(num(3)) }),
        inc: bx(Node::ND_ASSIGN {
            lhs: bx(var(0)),
            rhs: bx(Node::ND_ADD { lhs: bx(var(0)), rhs: bx(num(1)) }),
        }),
        body: bx(Node::ND_BLOCK { stmts: vec![] }),
    };
    assert_eq!(show(&statement("for (i=0; i<3; i=i+1) {}")), show(&expected));
}

#[test]
fn for_without_clauses_has_three_empty_children() {
    let expected = Node::ND_FOR {
        init: bx(Node::ND_NOTHING),
        cond: bx(Node::ND_NOTHING),
        inc: bx(Node::ND_NOTHING),
        body: bx(Node::ND_BLOCK { stmts: vec![Node::ND_RETURN { ret: bx(num(1)) }] }),
    };
    assert_eq!(show(&statement("for (;;) { return 1; }")), show(&expected));
}

#[test]
fn for_may_leave_out_any_clause() {
    let expected = Node::ND_FOR {
        init: bx(Node::ND_NOTHING),
        cond: bx(var(0)),
        inc: bx(Node::ND_NOTHING),
        body: bx(num(1)),
    };
    assert_eq!(show(&statement("for (;x;) 1;")), show(&expected));
    let expected = Node::ND_FOR {
        init: bx(num(1)),
        cond: bx(Node::ND_NOTHING),
        inc: bx(num(2)),
        body: bx(num(3)),
    };
    assert_eq!(show(&statement("for (1;;2) 3;")), show(&expected));
}

#[test]
fn blocks_nest() {
    let expected = Node::ND_BLOCK {
        stmts: vec![
            num(1),
            Node::ND_BLOCK { stmts: vec![num(2), Node::ND_BLOCK { stmts: vec![] }] },
            num(3),
        ],
    };
    assert_eq!(show(&statement("{ 1; { 2; {} } 3; }")), show(&expected));
}

#[test]
fn missing_semicolon_is_an_error() {
    assert_eq!(
        statement_error("return 1 }"),
        ParseError::Missing { symbol: Symbol::Semicolon, at_end: false }
    );
    assert_eq!(
        statement_error("return 1"),
        ParseError::Missing { symbol: Symbol::Semicolon, at_end: true }
    );
    assert_eq!(
        statement_error("1 2;"),
        ParseError::Missing { symbol: Symbol::Semicolon, at_end: false }
    );
}

#[test]
fn missing_parentheses_are_errors() {
    assert_eq!(
        statement_error("if 1) 2;"),
        ParseError::Missing { symbol: Symbol::LParen, at_end: false }
    );
    assert_eq!(
        statement_error("while (1 2;"),
        ParseError::Missing { symbol: Symbol::RParen, at_end: false }
    );
    assert_eq!(
        statement_error("for"),
        ParseError::Missing { symbol: Symbol::LParen, at_end: true }
    );
    assert_eq!(
        statement_error("for (;; 1;) 2;"),
        ParseError::Missing { symbol: Symbol::RParen, at_end: false }
    );
    assert_eq!(
        statement_error("(1;"),
        ParseError::Missing { symbol: Symbol::RParen, at_end: false }
    );
    assert_eq!(
        statement_error("f(1;"),
        ParseError::Missing { symbol: Symbol::RParen, at_end: false }
    );
}

#[test]
fn missing_number_is_an_error() {
    assert_eq!(statement_error(";"), ParseError::MissingNumber { at_end: false });
    assert_eq!(statement_error("1 + ;"), ParseError::MissingNumber { at_end: false });
    assert_eq!(statement_error("1 +"), ParseError::MissingNumber { at_end: true });
    assert_eq!(statement_error("{ 1;"), ParseError::MissingNumber { at_end: true });
    assert_eq!(statement_error("x = "), ParseError::MissingNumber { at_end: true });
    assert_eq!(statement_error("else 1;"), ParseError::MissingNumber { at_end: false });
}

#[test]
fn function_must_start_with_its_name() {
    assert_eq!(parse("1").unwrap_err(), ParseError::MissingFunctionName);
    assert_eq!(parse("(){}").unwrap_err(), ParseError::MissingFunctionName);
    assert_eq!(parse("f(){} return").unwrap_err(), ParseError::MissingFunctionName);
    assert_eq!(parse("if(){}").unwrap_err(), ParseError::MissingFunctionName);
}

#[test]
fn function_header_errors() {
    assert_eq!(
        parse("f").unwrap_err(),
        ParseError::Missing { symbol: Symbol::LParen, at_end: true }
    );
    assert_eq!(
        parse("f{}").unwrap_err(),
        ParseError::Missing { symbol: Symbol::LParen, at_end: false }
    );
    assert_eq!(
        parse("f(a b){}").unwrap_err(),
        ParseError::Missing { symbol: Symbol::RParen, at_end: false }
    );
    assert_eq!(
        parse("f(1){}").unwrap_err(),
        ParseError::Missing { symbol: Symbol::RParen, at_end: false }
    );
    assert_eq!(
        parse("f() return 1;").unwrap_err(),
        ParseError::Missing { symbol: Symbol::LBrace, at_end: false }
    );
    assert_eq!(
        parse("f()").unwrap_err(),
        ParseError::Missing { symbol: Symbol::LBrace, at_end: true }
    );
    assert_eq!(parse("f(){ return 1;").unwrap_err(), ParseError::MissingNumber { at_end: true });
}

#[test]
fn comma_in_parameters_needs_a_name() {
    assert_eq!(parse("f(a,){}").unwrap_err(), ParseError::MissingParameter);
    assert_eq!(parse("f(a,,b){}").unwrap_err(), ParseError::MissingParameter);
    assert_eq!(parse("f(a,1){}").unwrap_err(), ParseError::MissingParameter);
    assert_eq!(parse("f(a,").unwrap_err(), ParseError::MissingParameter);
}

#[test]
fn repeated_parameter_shares_its_slot() {
    let funcs = parse("f(a,a){ return a; }").unwrap();
    match &funcs[0] {
        Node::ND_FUNCTION { parameters, stack_size, .. } => {
            assert_eq!(*stack_size, 8);
            assert_eq!(format!("{:?}", parameters), format!("{:?}", vec![var(0), var(0)]));
        }
        _ => panic!("not a function"),
    }
}

#[test]
fn consume_takes_matching_reserved_tokens_only() {
    let mut toks = tokens("+ x");
    assert!(!consume(&mut toks, "-"));
    assert_eq!(toks.len(), 2);
    assert!(consume(&mut toks, "+"));
    assert_eq!(toks.len(), 1);
    assert!(!consume(&mut toks, "x"));
    assert_eq!(toks.len(), 1);
    let mut none = tokens("");
    assert!(!consume(&mut none, "+"));
}

#[test]
fn consume_tk_takes_tokens_of_the_kind_only() {
    let mut toks = tokens("x 1");
    assert_eq!(consume_tk(&mut toks, TokenKind::TK_NUM), None);
    let taken = consume_tk(&mut toks, TokenKind::TK_IDENT).unwrap();
    assert_eq!(taken.str, "x");
    assert_eq!(taken.kind, TokenKind::TK_IDENT);
    assert_eq!(toks.len(), 1);
    assert_eq!(consume_tk(&mut toks, TokenKind::TK_IDENT), None);
    let taken = consume_tk(&mut toks, TokenKind::TK_NUM).unwrap();
    assert_eq!(taken.val, Some(1));
    assert_eq!(consume_tk(&mut toks, TokenKind::TK_NUM), None);
}

#[test]
fn expect_reports_what_is_missing() {
    let mut toks = tokens("( )");
    assert_eq!(expect(&mut toks, Symbol::LParen), Ok(()));
    assert_eq!(
        expect(&mut toks, Symbol::LBrace),
        Err(ParseError::Missing { symbol: Symbol::LBrace, at_end: false })
    );
    assert_eq!(toks.len(), 1);
    assert_eq!(expect(&mut toks, Symbol::RParen), Ok(()));
    assert_eq!(
        expect(&mut toks, Symbol::Semicolon),
        Err(ParseError::Missing { symbol: Symbol::Semicolon, at_end: true })
    );
}

#[test]
fn expect_number_gives_the_value() {
    let mut toks = tokens("42 x");
    assert_eq!(expect_number(&mut toks), Ok(42));
    assert_eq!(expect_number(&mut toks), Err(ParseError::MissingNumber { at_end: false }));
    assert_eq!(toks.len(), 1);
    let mut none = tokens("");
    assert_eq!(expect_number(&mut none), Err(ParseError::MissingNumber { at_end: true }));
}

#[test]
fn number_token_without_a_value_is_no_number() {
    let mut toks = VecDeque::new();
    toks.push_back(Token { kind: TokenKind::TK_NUM, val: None, str: String::from("1") });
    assert_eq!(expect_number(&mut toks), Err(ParseError::MissingNumber { at_end: false }));
    assert_eq!(toks.len(), 1);
}

#[test]
fn local_var_reuses_and_allocates() {
    let ident =
        |name: &str| Token { kind: TokenKind::TK_IDENT, val: None, str: String::from(name) };
    let mut lvars: VecDeque<LVar> = VecDeque::new();
    assert!(find_lvar(&ident("a"), &lvars).is_none());
    assert_eq!(show(&local_var(ident("a"), &mut lvars).unwrap()), show(&var(0)));
    assert_eq!(show(&local_var(ident("b"), &mut lvars).unwrap()), show(&var(8)));
    assert_eq!(show(&local_var(ident("a"), &mut lvars).unwrap()), show(&var(0)));
    assert_eq!(show(&local_var(ident("c"), &mut lvars).unwrap()), show(&var(16)));
    assert_eq!(show(&local_var(ident("b"), &mut lvars).unwrap()), show(&var(8)));
    assert_eq!(lvars.len(), 3);
    assert_eq!(lvars.front().unwrap().name, "c");
    assert_eq!(lvars.front().unwrap().offset, 16);
    assert_eq!(lvars.back().unwrap().name, "a");
    let found = find_lvar(&ident("b"), &lvars).unwrap();
    assert_eq!(found.name, "b");
    assert_eq!(found.offset, 8);
    assert!(find_lvar(&ident("d"), &lvars).is_none());
}

#[test]
fn function_leaves_the_rest_of_the_tokens() {
    let mut toks = tokens("f(){} g(){}");
    let f = function(&mut toks).unwrap();
    assert_eq!(toks.len(), 5);
    match f {
        Node::ND_FUNCTION { name, body, parameters, stack_size } => {
            assert_eq!(name, "f");
            assert!(body.is_empty());
            assert!(parameters.is_empty());
            assert_eq!(stack_size, 0);
        }
        _ => panic!("not a function"),
    }
}

#[test]
fn program_consumes_every_token() {
    let mut toks = tokens("f(){ return 1; } g(a){ return a; }");
    let funcs = program(&mut toks).unwrap();
    assert_eq!(funcs.len(), 2);
    assert!(toks.is_empty());
}

#[test]
fn parse_messages_name_the_construct() {
    assert_eq!(
        ParseError::Missing { symbol: Symbol::Semicolon, at_end: false }.message(),
        "expected ';', but found another token"
    );
    assert_eq!(
        ParseError::Missing { symbol: Symbol::RParen, at_end: true }.message(),
        "expected ')' at the end of the input"
    );
    assert_eq!(
        ParseError::Missing { symbol: Symbol::LParen, at_end: true }.message(),
        "expected '(' at the end of the input"
    );
    assert_eq!(
        ParseError::Missing { symbol: Symbol::LBrace, at_end: false }.message(),
        "expected '{', but found another token"
    );
    assert_eq!(
        ParseError::MissingNumber { at_end: false }.message(),
        "expected a number, but found another token"
    );
    assert_eq!(
        ParseError::MissingNumber { at_end: true }.message(),
        "expected a number at the end of the input"
    );
    assert_eq!(
        ParseError::MissingFunctionName.message(),
        "expected the name of a function"
    );
    assert_eq!(
        ParseError::MissingParameter.message(),
        "expected the name of a parameter after ','"
    );
    assert_eq!(
        ParseError::TooManyVariables.message(),
        "too many variables in one function"
    );
}

#[test]
fn a_cloned_tree_is_the_same_tree() {
    let funcs = parse(
        "f(a,b){ for (i=0; i<a; i=i+1) { if (i == b) return g(i, a-b); else b = b + 1; } \
         while (a) a = a - 1; return -a / 2 != 1 <= 3; }",
    )
    .unwrap();
    let copy = funcs[0].clone();
    assert_eq!(show(&copy), show(&funcs[0]));
    assert_eq!(show(&Node::ND_NOTHING.clone()), show(&Node::ND_NOTHING));
}
