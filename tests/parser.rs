use genko::ast::{BinaryOp, Decimal, Node, UnaryOp};
use genko::parser::parse;

fn parse_single(string: &str) -> Node {
    parse(string).unwrap().remove(0)
}

fn num(n: u64) -> Node {
    Node::NumberExpr(Decimal::from_u64(n))
}

fn ident(name: &str) -> Box<Node> {
    Box::new(Node::IdentExpr(String::from(name)))
}

#[test]
fn number() {
    assert_eq!(parse_single("1"), num(1));
}

#[test]
fn comments() {
    assert_eq!(parse_single("/* Test */ # TEST \n 1"), num(1));
}

#[test]
fn binary() {
    assert_eq!(
        parse_single("1+2"),
        Node::BinaryExpr {
            op: BinaryOp::Add,
            lhs: Box::new(num(1)),
            rhs: Box::new(num(2))
        }
    )
}

#[test]
fn identifier() {
    assert_eq!(parse_single("x"), Node::IdentExpr(String::from("x")))
}

#[test]
fn initialisation() {
    assert_eq!(
        parse_single("let a = 1; a"),
        Node::InitExpr {
            ident: ident("a"),
            expr: Box::new(num(1))
        }
    )
}

#[test]
fn assignement() {
    assert_eq!(
        parse_single("a = 1; a"),
        Node::AssignExpr {
            ident: ident("a"),
            expr: Box::new(num(1))
        }
    )
}

#[test]
fn block() {
    assert_eq!(
        parse_single("{a = 1;} 1"),
        Node::BlockExpr(vec![Node::AssignExpr {
            ident: ident("a"),
            expr: Box::new(num(1))
        }])
    );
}

#[test]
fn assignement_chaining() {
    assert_eq!(
        parse_single("b = a = 1"),
        Node::AssignExpr {
            ident: ident("b"),
            expr: Box::new(Node::AssignExpr {
                ident: ident("a"),
                expr: Box::new(num(1))
            })
        }
    )
}

#[test]
fn func_declaration_empty() {
    assert_eq!(
        parse_single("fn cat() { 1 } 1"),
        Node::FuncExpr {
            ident: ident("cat"),
            args: vec![],
            body: Box::new(Node::BlockExpr(vec![num(1)]))
        }
    )
}

#[test]
fn func_declaration() {
    assert_eq!(
        parse_single("fn cat(a, b) { 6+4 } 6"),
        Node::FuncExpr {
            ident: ident("cat"),
            args: vec![String::from("a"), String::from("b")],
            body: Box::new(Node::BlockExpr(vec![Node::BinaryExpr {
                op: BinaryOp::Add,
                lhs: Box::new(num(6)),
                rhs: Box::new(num(4))
            }])),
        }
    )
}

#[test]
fn call_empty() {
    assert_eq!(
        parse_single("ze()"),
        Node::CallExpr {
            ident: ident("ze"),
            args: vec![]
        }
    )
}

#[test]
fn call() {
    assert_eq!(
        parse_single("yz(1+3, cd)"),
        Node::CallExpr {
            ident: ident("yz"),
            args: vec![
                Node::BinaryExpr {
                    lhs: Box::new(num(1)),
                    op: BinaryOp::Add,
                    rhs: Box::new(num(3)),
                },
                Node::IdentExpr(String::from("cd")),
            ]
        }
    )
}

#[test]
fn parser_bool_false() {
    assert_eq!(parse_single("false"), Node::BoolExpr(false))
}

#[test]
fn parser_bool_true() {
    assert_eq!(parse_single("true"), Node::BoolExpr(true))
}

#[test]
fn cond_if() {
    assert_eq!(
        parse_single("if true then {let a = 1;} c"),
        Node::CondExpr {
            cond: Box::new(Node::BoolExpr(true)),
            cons: Box::new(Node::BlockExpr(vec![Node::InitExpr {
                ident: ident("a"),
                expr: Box::new(num(1))
            }])),
            alter: None,
        }
    )
}

#[test]
fn cond_if_else() {
    assert_eq!(
        parse_single("if a == 0 then {let a = 1;} else {let b = 2;} c"),
        Node::CondExpr {
            cond: Box::new(Node::BinaryExpr {
                op: BinaryOp::Eq,
                lhs: ident("a"),
                rhs: Box::new(num(0)),
            }),
            cons: Box::new(Node::BlockExpr(vec![Node::InitExpr {
                ident: ident("a"),
                expr: Box::new(num(1))
            }])),
            alter: Some(Box::new(Node::BlockExpr(vec![Node::InitExpr {
                ident: ident("b"),
                expr: Box::new(num(2))
            }]))),
        }
    )
}

#[test]
fn cond_while() {
    assert_eq!(
        parse_single("while true {let a=1;} c"),
        Node::WhileExpr {
            cond: Box::new(Node::BoolExpr(true)),
            body: Box::new(Node::BlockExpr(vec![Node::InitExpr {
                ident: ident("a"),
                expr: Box::new(num(1))
            }])),
        }
    )
}

#[test]
fn precedence_levels() {
    // 1 + 2 * 3 == 7  groups as  (1 + (2 * 3)) == 7
    assert_eq!(
        parse_single("1 + 2 * 3 == 7"),
        Node::BinaryExpr {
            op: BinaryOp::Eq,
            lhs: Box::new(Node::BinaryExpr {
                op: BinaryOp::Add,
                lhs: Box::new(num(1)),
                rhs: Box::new(Node::BinaryExpr {
                    op: BinaryOp::Mul,
                    lhs: Box::new(num(2)),
                    rhs: Box::new(num(3)),
                }),
            }),
            rhs: Box::new(num(7)),
        }
    )
}

#[test]
fn subtraction_groups_left() {
    assert_eq!(
        parse_single("5 - 2 - 1"),
        Node::BinaryExpr {
            op: BinaryOp::Sub,
            lhs: Box::new(Node::BinaryExpr {
                op: BinaryOp::Sub,
                lhs: Box::new(num(5)),
                rhs: Box::new(num(2)),
            }),
            rhs: Box::new(num(1)),
        }
    )
}

#[test]
fn power_groups_right() {
    assert_eq!(
        parse_single("2 ^ 3 ^ 2"),
        Node::BinaryExpr {
            op: BinaryOp::Pow,
            lhs: Box::new(num(2)),
            rhs: Box::new(Node::BinaryExpr {
                op: BinaryOp::Pow,
                lhs: Box::new(num(3)),
                rhs: Box::new(num(2)),
            }),
        }
    )
}

#[test]
fn unary_binds_tighter_than_binary() {
    assert_eq!(
        parse_single("-a % 2"),
        Node::BinaryExpr {
            op: BinaryOp::Modulo,
            lhs: Box::new(Node::UnaryExpr {
                op: UnaryOp::Sub,
                child: ident("a"),
            }),
            rhs: Box::new(num(2)),
        }
    )
}

#[test]
fn fraction_literal() {
    let d = Decimal { whole: vec![2], frac: vec![5, 0] };
    assert_eq!(parse_single("2.50"), Node::NumberExpr(d));
}

#[test]
fn global_and_return() {
    let nodes = parse("global g = 3; fn f() { return g; }").unwrap();
    assert_eq!(nodes.len(), 2);
    assert_eq!(
        nodes[0],
        Node::GlobalInitExpr { ident: ident("g"), expr: Box::new(num(3)) }
    );
    assert_eq!(
        nodes[1],
        Node::FuncExpr {
            ident: ident("f"),
            args: vec![],
            body: Box::new(Node::BlockExpr(vec![Node::ReturnExpr { ret: ident("g") }])),
        }
    );
}

#[test]
fn empty_program_and_stray_semicolons() {
    assert_eq!(parse("").unwrap().len(), 0);
    assert_eq!(parse(" ;; // nothing\n ; ").unwrap().len(), 0);
    assert_eq!(parse(";1;;2;").unwrap(), vec![num(1), num(2)]);
}

#[test]
fn parse_error_offsets() {
    assert_eq!(parse("1 + $").unwrap_err().offset, 4);
    assert_eq!(parse("let = 3").unwrap_err().offset, 0);
    assert_eq!(parse("(1 + 2").unwrap_err().offset, 6);
    assert_eq!(parse("/* open").unwrap_err().offset, 7);
    assert_eq!(parse("é").unwrap_err().offset, 0);
    assert_eq!(parse("# é\n$").unwrap_err().offset, 5);
}

#[test]
fn parsing_twice_gives_the_same_tree() {
    let text = "fn f(a) { if a > 1 then { return a * f(a - 1); } else { return 1; } } f(5)";
    assert_eq!(parse(text).unwrap(), parse(text).unwrap());
}
