use smoltok::parser::{
    binary_expr, digits, expr, ident, literal, number, sm_char, sm_string, statements,
};
use smoltok::syntax::{mk_ident, mk_ident_expr, Expr, Keyword, Literal, Msg, Num, Statement};

fn mk_num(s: &str) -> Num {
    Num::int_from_str(s)
}

#[test]
fn it_works() {
}

#[test]
fn test_digits() {
    let ans: u32 = 10;
    let res = digits("10");
    assert_eq!(res, Ok((ans, "")));
}

#[test]
fn test_bare_number() {
    let res = number("10");
    let ans = mk_num("10");
    assert_eq!(res, Ok((ans, "")));
}

#[test]
fn test_exponent() {
    let res = number("10e3");
    let ans = Num {
        integer: String::from("10"),
        exponent: Some(3),
        mantissa: None,
        radix: None,
    };
    assert_eq!(res, Ok((ans, "")));
}

#[test]
fn test_full_number() {
    let res = number("10r10.5e3");
    let ans = Num {
        integer: String::from("10"),
        exponent: Some(3),
        mantissa: Some(String::from("5")),
        radix: Some(10),
    };
    assert_eq!(res, Ok((ans, "")));
}

#[test]
fn test_float() {
    let res = number("123.456");
    let ans = Num {
        integer: String::from("123"),
        exponent: None,
        mantissa: Some(String::from("456")),
        radix: None,
    };
    assert_eq!(res, Ok((ans, "")));
}

#[test]
fn test_radix() {
    let res = number("16rAC.DCe10");
    let ans = Num {
        integer: String::from("AC"),
        exponent: Some(10),
        mantissa: Some(String::from("DC")),
        radix: Some(16),
    };
    assert_eq!(res, Ok((ans, "")));
}

#[test]
fn test_char() {
    let res = sm_char("$a");
    let ans = Literal::Char('a');
    assert_eq!(res, Ok((ans, "")));
}

#[test]
fn test_string() {
    let res = sm_string("'hello world'");
    let ans = Literal::Str(String::from("hello world"));
    assert_eq!(res, Ok((ans, "")));
}

#[test]
fn test_string_quotes() {
    let res = sm_string("'hello ''world'''");
    let ans = Literal::Str(String::from("hello 'world'"));
    assert_eq!(res, Ok((ans, "")));
}

#[test]
fn test_symbol() {
    let res = literal("#foobar123");
    let ans = Literal::Symbol(String::from("foobar123"));
    assert_eq!(res, Ok((ans, "")));
}

#[test]
fn test_literal() {
    let res = literal("#('hello' 123 world)");
    let ans = Literal::Array(vec![
        Literal::Str(String::from("hello")),
        Literal::Number(mk_num("123")),
        Literal::Symbol(String::from("world")),
    ]);
    assert_eq!(res, Ok((ans, "")));
}

#[test]
fn test_ident() {
    let res = ident("index");
    let ans = mk_ident("index");
    assert_eq!(res, Ok((ans, "")))
}

#[test]
fn test_single_assignment() {
    let res = expr("foo <- bar");
    let ans = Expr::Assign(mk_ident("foo"), Box::new(mk_ident_expr("bar")));
    assert_eq!(res, Ok((ans, "")))
}

#[test]
fn test_expr_assigment() {
    let res = expr("foo <- 'hello world'");
    let ans = Expr::Assign(
        mk_ident("foo"),
        Box::new(Expr::Lit(Literal::Str(String::from("hello world")))),
    );
    assert_eq!(res, Ok((ans, "")));
}

#[test]
fn test_assign_number() {
    let res = expr("foo <- 3r2e3");
    let ans = Expr::Assign(
        mk_ident("foo"),
        Box::new(Expr::Lit(Literal::Number(Num {
            radix: Some(3),
            integer: String::from("2"),
            mantissa: None,
            exponent: Some(3),
        }))),
    );
    assert_eq!(res, Ok((ans, "")));
}

#[test]
fn test_multiple_assignment() {
    let res = expr("foo <- bar <- 'hello world'");
    let ans = Expr::Assign(
        mk_ident("foo"),
        Box::new(Expr::Assign(
            mk_ident("bar"),
            Box::new(
                Expr::Lit(Literal::Str(String::from("hello world"))),
            ),
        )),
    );
    assert_eq!(res, Ok((ans, "")));
}

#[test]
fn test_unary_message_expr() {
    let res = expr("theta sin");
    let ans = Expr::Message {
        receiver: Box::new(mk_ident_expr("theta")),
        selector: Msg::Unary(mk_ident("sin")),
    };
    assert_eq!(res, Ok((ans, "")));
}

#[test]
fn test_binary_expr_num() {
    let res = binary_expr("3 + 2");
    let ans = Expr::Message {
        receiver: Box::new(Expr::Lit(Literal::Number(mk_num("3")))),
        selector: Msg::Binary(String::from("+"), Box::new(Expr::Lit(Literal::Number(mk_num("2")))))
    };
    assert_eq!(res, Ok((ans, "")));
}

#[test]
fn test_binary_expr() {
    let res = expr("foo + 2");
    let ans = Expr::Message {
        receiver: Box::new(mk_ident_expr("foo")),
        selector: Msg::Binary(String::from("+"), Box::new(Expr::Lit(Literal::Number(mk_num("2")))))
    };
    assert_eq!(res, Ok((ans, "")));
}

#[test]
fn test_keyword_message() {
    let res = expr("a b: 2");
    let ans = Expr::Message {
        receiver: Box::new(mk_ident_expr("a")),
        selector: Msg::Kwargs(vec![
            Keyword {
                id: mk_ident("b:"),
                val: Expr::Lit(Literal::Number(mk_num("2")))
            },
        ])
    };
    assert_eq!(res, Ok((ans, "")));
}

#[test]
fn test_keyword_messages() {
    let res = expr("a b: 2 c: 3");
    let ans = Expr::Message {
        receiver: Box::new(mk_ident_expr("a")),
        selector: Msg::Kwargs(vec![
            Keyword {
                id: mk_ident("b:"),
                val: Expr::Lit(Literal::Number(mk_num("2")))
            },
            Keyword {
                id: mk_ident("c:"),
                val: Expr::Lit(Literal::Number(mk_num("3")))
            },
        ])
    };
    assert_eq!(res, Ok((ans, "")));
}

#[test]
fn test_many_unary_messages() {
    let res = expr("theta sin round");
    let ans = Expr::Message {
        receiver: Box::new(Expr::Message {
            receiver: Box::new(mk_ident_expr("theta")),
            selector: Msg::Unary(mk_ident("sin")),
        }),
        selector: Msg::Unary(mk_ident("round")),
    };
    assert_eq!(res, Ok((ans, "")));
}

#[test]
fn test_return_statement() {
    let res = statements("^ 'foo'");
    let ans = vec![Statement::Ret(Expr::Lit(Literal::Str(String::from("foo"))))];
    assert_eq!(res, Ok((ans, "")));
}

#[test]
fn test_many_statements() {
    let res = statements("foo <- bar. ^ foo");
    let ans = vec![
        Statement::E(Expr::Assign(
            mk_ident("foo"),
            Box::new(mk_ident_expr("bar")),
        )),
        Statement::Ret(mk_ident_expr("foo")),
    ];
    assert_eq!(res, Ok((ans, "")));
}
