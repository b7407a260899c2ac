use smoltok::error::{ErrorKind, ParseError};
use smoltok::parser::{
    array, assignment, binary_expr, binary_object, binary_selector, block, block_vars,
    cascaded_message_expr, digits, expr, ident, keyword_expr, keyword_lit, literal, message_expr,
    number, prefixed_symbol, primary, sm_char, sm_string, special_char, statements, symbol,
    unary_expr, unary_object, unary_selector, upper_digit,
};
use smoltok::syntax::{mk_ident, mk_ident_expr, Expr, Ident, Keyword, Literal, Msg, Num, Statement};

fn failure(kind: ErrorKind, position: usize) -> ParseError {
    ParseError { kind, position }
}

fn num(s: &str) -> Expr {
    Num::int_from_str(s).to_expr()
}

fn send(receiver: Expr, selector: Msg) -> Expr {
    Expr::Message { receiver: Box::new(receiver), selector }
}

fn unary(name: &str) -> Msg {
    Msg::Unary(mk_ident(name))
}

fn binary(selector: &str, argument: Expr) -> Msg {
    Msg::Binary(String::from(selector), Box::new(argument))
}

fn keyword(id: &str, val: Expr) -> Keyword {
    Keyword { id: mk_ident(id), val }
}

#[test]
fn ident_stops_at_what_is_no_letter_or_digit() {
    assert_eq!(ident("a_b"), Ok((mk_ident("a"), "_b")));
    assert_eq!(ident("x1y2+z"), Ok((mk_ident("x1y2"), "+z")));
}

#[test]
fn ident_reads_the_whitespace_after_it() {
    assert_eq!(ident("abc \t\n def"), Ok((mk_ident("abc"), "def")));
}

#[test]
fn ident_must_start_with_a_letter() {
    assert_eq!(ident("9a"), Err(failure(ErrorKind::UnexpectedToken, 0)));
    assert_eq!(ident(" a"), Err(failure(ErrorKind::UnexpectedToken, 0)));
    assert_eq!(ident(""), Err(failure(ErrorKind::UnexpectedToken, 0)));
}

#[test]
fn ident_takes_letters_beyond_ascii() {
    assert_eq!(ident("\u{e9}t\u{e9} x"), Ok((mk_ident("\u{e9}t\u{e9}"), "x")));
    assert_eq!(ident("a\u{3b2}\u{663}"), Ok((mk_ident("a\u{3b2}\u{663}"), "")));
}

#[test]
fn whitespace_beyond_ascii_is_whitespace() {
    assert_eq!(ident("a\u{2003}b"), Ok((mk_ident("a"), "b")));
}

#[test]
fn keyword_lit_carries_its_colon() {
    assert_eq!(keyword_lit("at: 1"), Ok((String::from("at:"), "1")));
    assert_eq!(keyword_lit("at : 1"), Ok((String::from("at:"), "1")));
    assert_eq!(keyword_lit("at 1"), Err(failure(ErrorKind::UnexpectedToken, 3)));
}

#[test]
fn assignment_is_the_arrow() {
    assert_eq!(assignment("<-  x"), Ok(((), "x")));
    assert_eq!(assignment("<x"), Err(failure(ErrorKind::UnexpectedToken, 0)));
}

#[test]
fn digits_value_is_decimal() {
    assert_eq!(digits("007x"), Ok((7, "x")));
    assert_eq!(digits("4294967295"), Ok((4294967295, "")));
}

#[test]
fn digits_fail_beyond_32_bits() {
    assert_eq!(digits("4294967296"), Err(failure(ErrorKind::UnexpectedToken, 0)));
    assert_eq!(
        digits("99999999999999999999999999"),
        Err(failure(ErrorKind::UnexpectedToken, 0))
    );
}

#[test]
fn digits_need_a_digit() {
    assert_eq!(digits("x1"), Err(failure(ErrorKind::UnexpectedToken, 0)));
    assert_eq!(digits("\u{663}"), Err(failure(ErrorKind::UnexpectedToken, 0)));
}

#[test]
fn upper_digit_is_a_digit_or_an_uppercase_letter() {
    assert_eq!(upper_digit("7"), Ok(('7', "")));
    assert_eq!(upper_digit("Zz"), Ok(('Z', "z")));
    assert_eq!(upper_digit("\u{c9}"), Ok(('\u{c9}', "")));
    assert_eq!(upper_digit("z"), Err(failure(ErrorKind::UnexpectedToken, 0)));
}

#[test]
fn number_with_a_digit_beyond_its_radix_fails() {
    assert_eq!(number("2r19"), Err(failure(ErrorKind::InvalidDigit, 3)));
    assert_eq!(number("16rFG"), Err(failure(ErrorKind::InvalidDigit, 4)));
    assert_eq!(number("8r7.8"), Err(failure(ErrorKind::InvalidDigit, 4)));
}

#[test]
fn number_without_radix_is_in_base_ten() {
    assert_eq!(number("1A"), Err(failure(ErrorKind::InvalidDigit, 1)));
    assert_eq!(number("AC"), Err(failure(ErrorKind::InvalidDigit, 0)));
}

#[test]
fn number_takes_no_uppercase_letter_beyond_ascii_as_a_digit() {
    assert_eq!(number("36rZ\u{c9}"), Err(failure(ErrorKind::InvalidDigit, 4)));
    assert_eq!(
        number("36rZ\u{e9}"),
        Ok((
            Num { radix: Some(36), integer: String::from("Z"), mantissa: None, exponent: None },
            "\u{e9}"
        ))
    );
}

#[test]
fn number_radix_is_from_2_to_36() {
    assert_eq!(number("37r1"), Err(failure(ErrorKind::UnexpectedToken, 2)));
    assert_eq!(number("1r0"), Err(failure(ErrorKind::UnexpectedToken, 1)));
    assert_eq!(number("0r0"), Err(failure(ErrorKind::UnexpectedToken, 1)));
    assert_eq!(number("99999999999r1"), Err(failure(ErrorKind::UnexpectedToken, 11)));
    assert_eq!(
        number("2r101"),
        Ok((
            Num { radix: Some(2), integer: String::from("101"), mantissa: None, exponent: None },
            ""
        ))
    );
    assert_eq!(
        number("36rZZ"),
        Ok((
            Num { radix: Some(36), integer: String::from("ZZ"), mantissa: None, exponent: None },
            ""
        ))
    );
}

#[test]
fn number_radix_needs_digits_after_it() {
    assert_eq!(number("10r"), Err(failure(ErrorKind::UnexpectedToken, 3)));
    assert_eq!(number("10rem"), Err(failure(ErrorKind::UnexpectedToken, 3)));
}

#[test]
fn number_leaves_a_point_or_an_e_that_nothing_follows() {
    assert_eq!(number("3. x"), Ok((Num::int_from_str("3"), ". x")));
    assert_eq!(number("3even"), Ok((Num::int_from_str("3"), "even")));
    assert_eq!(number("3.e1"), Ok((Num::int_from_str("3"), ".e1")));
}

#[test]
fn number_exponent_beyond_32_bits_fails() {
    assert_eq!(number("1e4294967296"), Err(failure(ErrorKind::UnexpectedToken, 2)));
}

#[test]
fn number_needs_a_digit() {
    assert_eq!(number("x"), Err(failure(ErrorKind::UnexpectedToken, 0)));
    assert_eq!(number(""), Err(failure(ErrorKind::UnexpectedToken, 0)));
}

#[test]
fn sm_char_takes_any_one_character() {
    assert_eq!(sm_char("$$x"), Ok((Literal::Char('$'), "x")));
    assert_eq!(sm_char("$ "), Ok((Literal::Char(' '), "")));
    assert_eq!(sm_char("$'"), Ok((Literal::Char('\''), "")));
}

#[test]
fn sm_char_without_its_character_is_unterminated() {
    assert_eq!(sm_char("$"), Err(failure(ErrorKind::UnterminatedLiteral, 1)));
    assert_eq!(sm_char("a"), Err(failure(ErrorKind::UnexpectedToken, 0)));
}

#[test]
fn unterminated_string_fails() {
    assert_eq!(sm_string("'abc"), Err(failure(ErrorKind::UnterminatedLiteral, 4)));
    assert_eq!(sm_string("'"), Err(failure(ErrorKind::UnterminatedLiteral, 1)));
    assert_eq!(sm_string("'it''s"), Err(failure(ErrorKind::UnterminatedLiteral, 6)));
    assert_eq!(sm_string("'abc''"), Err(failure(ErrorKind::UnterminatedLiteral, 6)));
}

#[test]
fn string_needs_its_opening_quote() {
    assert_eq!(sm_string("abc'"), Err(failure(ErrorKind::UnexpectedToken, 0)));
}

#[test]
fn string_ends_at_the_first_single_quote() {
    assert_eq!(sm_string("''"), Ok((Literal::Str(String::new()), "")));
    assert_eq!(sm_string("'a' 'b'"), Ok((Literal::Str(String::from("a")), " 'b'")));
    assert_eq!(sm_string("''''"), Ok((Literal::Str(String::from("'")), "")));
}

#[test]
fn special_char_is_one_of_the_set() {
    for c in "+/\\*~<>=@%|&?!".chars() {
        let text = c.to_string();
        assert_eq!(special_char(&text), Ok((c, "")));
    }
    assert_eq!(special_char("-"), Err(failure(ErrorKind::UnexpectedToken, 0)));
    assert_eq!(special_char("a"), Err(failure(ErrorKind::UnexpectedToken, 0)));
}

#[test]
fn binary_selector_has_one_or_two_characters() {
    assert_eq!(binary_selector("+ 1"), Ok((String::from("+"), "1")));
    assert_eq!(binary_selector("<= 1"), Ok((String::from("<="), "1")));
    assert_eq!(binary_selector("<<< 1"), Ok((String::from("<<"), "< 1")));
    assert_eq!(binary_selector("- 1"), Ok((String::from("-"), "1")));
    assert_eq!(binary_selector("-- 1"), Ok((String::from("-"), "- 1")));
    assert_eq!(binary_selector("+-"), Ok((String::from("+"), "-")));
    assert_eq!(binary_selector(" +"), Err(failure(ErrorKind::UnexpectedToken, 0)));
}

#[test]
fn symbol_of_keywords_is_one_text() {
    assert_eq!(literal("#at:put:"), Ok((Literal::Symbol(String::from("at:put:")), "")));
    assert_eq!(symbol("at: put: x"), Ok((Literal::Symbol(String::from("at:put:")), "x")));
    assert_eq!(prefixed_symbol("#at:x"), Ok((Literal::Symbol(String::from("at:")), "x")));
}

#[test]
fn symbol_of_a_binary_selector() {
    assert_eq!(literal("#+"), Ok((Literal::Symbol(String::from("+")), "")));
    assert_eq!(symbol("<= x"), Ok((Literal::Symbol(String::from("<=")), "x")));
}

#[test]
fn symbol_after_the_hash_may_start_with_a_digit() {
    assert_eq!(prefixed_symbol("#9lives x"), Ok((Literal::Symbol(String::from("9lives")), "x")));
    assert_eq!(symbol("9lives"), Err(failure(ErrorKind::UnexpectedToken, 0)));
}

#[test]
fn symbol_needs_its_hash_in_literal_position() {
    assert_eq!(prefixed_symbol("foo"), Err(failure(ErrorKind::UnexpectedToken, 0)));
    assert_eq!(prefixed_symbol("#"), Err(failure(ErrorKind::UnexpectedToken, 1)));
}

#[test]
fn array_elements_need_no_whitespace_between_them() {
    let ans = Literal::Array(vec![
        Literal::Number(Num::int_from_str("1")),
        Literal::Char('a'),
        Literal::Str(String::from("b")),
        Literal::Symbol(String::from("c")),
    ]);
    assert_eq!(array("(1$a'b'c)"), Ok((ans, "")));
}

#[test]
fn array_may_hold_arrays_and_whitespace() {
    let ans = Literal::Array(vec![
        Literal::Array(vec![]),
        Literal::Array(vec![
            Literal::Number(Num::int_from_str("1")),
            Literal::Array(vec![Literal::Symbol(String::from("+"))]),
        ]),
    ]);
    assert_eq!(array("( () ( 1 ( + ) ) ) x"), Ok((ans, " x")));
}

#[test]
fn array_takes_a_word_of_uppercase_letters_as_a_symbol() {
    let ans = Literal::Array(vec![
        Literal::Symbol(String::from("World")),
        Literal::Symbol(String::from("ABC")),
        Literal::Number(Num {
            radix: Some(16),
            integer: String::from("ABC"),
            mantissa: None,
            exponent: None,
        }),
    ]);
    assert_eq!(literal("#(World ABC 16rABC)"), Ok((ans, "")));
}

#[test]
fn unclosed_array_fails() {
    assert_eq!(array("(1 2"), Err(failure(ErrorKind::UnclosedDelimiter, 4)));
    assert_eq!(array("(1 #b)"), Err(failure(ErrorKind::UnclosedDelimiter, 3)));
    assert_eq!(literal("#("), Err(failure(ErrorKind::UnclosedDelimiter, 2)));
}

#[test]
fn array_reports_the_failure_that_reached_furthest() {
    assert_eq!(array("(2r19)"), Err(failure(ErrorKind::InvalidDigit, 4)));
    assert_eq!(array("(1 'abc"), Err(failure(ErrorKind::UnterminatedLiteral, 7)));
}

#[test]
fn literal_reads_the_whitespace_after_it() {
    assert_eq!(literal("12  x"), Ok((Literal::Number(Num::int_from_str("12")), "x")));
    assert_eq!(literal("$a  x"), Ok((Literal::Char('a'), "x")));
    assert_eq!(literal("'a'  x"), Ok((Literal::Str(String::from("a")), "x")));
    assert_eq!(literal("#(1)  x"), Ok((
        Literal::Array(vec![Literal::Number(Num::int_from_str("1"))]),
        "x"
    )));
    assert_eq!(literal(" 12"), Err(failure(ErrorKind::UnexpectedToken, 0)));
}

#[test]
fn literal_reports_the_failure_that_reached_furthest() {
    assert_eq!(literal("'abc"), Err(failure(ErrorKind::UnterminatedLiteral, 4)));
    assert_eq!(literal("2r19"), Err(failure(ErrorKind::InvalidDigit, 3)));
    assert_eq!(literal("x"), Err(failure(ErrorKind::UnexpectedToken, 0)));
}

#[test]
fn block_vars_are_colons_and_names() {
    assert_eq!(
        block_vars(":x :y | z"),
        Ok((vec![Ident(String::from("x")), Ident(String::from("y"))], "| z"))
    );
    assert_eq!(block_vars("| z"), Ok((vec![], "| z")));
    assert_eq!(block_vars(""), Ok((vec![], "")));
}

#[test]
fn colon_without_a_name_is_no_parameter() {
    assert_eq!(block_vars(": x"), Err(failure(ErrorKind::UnexpectedToken, 1)));
    assert_eq!(block_vars(":x :"), Err(failure(ErrorKind::UnexpectedToken, 4)));
    assert_eq!(block("[ :x : | ]"), Err(failure(ErrorKind::UnexpectedToken, 6)));
}

#[test]
fn block_with_parameters_and_statements() {
    let ans = Expr::Block {
        vars: vec![mk_ident("x"), mk_ident("y")],
        statements: vec![
            Statement::E(send(mk_ident_expr("x"), unary("foo"))),
            Statement::Ret(mk_ident_expr("y")),
        ],
    };
    assert_eq!(block("[ :x :y | x foo. ^ y ] z"), Ok((ans, "z")));
}

#[test]
fn block_without_parameters_keeps_its_bar() {
    let ans = Expr::Block { vars: vec![], statements: vec![Statement::Ret(num("1"))] };
    assert_eq!(block("[|^1]"), Ok((ans, "")));
    assert_eq!(block("[ ^ 1 ]"), Err(failure(ErrorKind::UnexpectedToken, 2)));
    assert_eq!(block("[ | ]"), Ok((Expr::Block { vars: vec![], statements: vec![] }, "")));
}

#[test]
fn unclosed_block_fails() {
    assert_eq!(block("[ | ^ a"), Err(failure(ErrorKind::UnclosedDelimiter, 7)));
    assert_eq!(block("[ | a foo. "), Err(failure(ErrorKind::UnclosedDelimiter, 11)));
}

#[test]
fn block_fails_as_its_statements_do() {
    assert_eq!(block("[ | a foo ]"), Err(failure(ErrorKind::UnexpectedToken, 10)));
    assert_eq!(block("[ | ^ 'abc ]"), Err(failure(ErrorKind::UnterminatedLiteral, 12)));
    assert_eq!(expr("[ | ^ 2r3 ]"), Err(failure(ErrorKind::InvalidDigit, 8)));
}

#[test]
fn unclosed_parenthesis_fails() {
    assert_eq!(primary("(a"), Err(failure(ErrorKind::UnclosedDelimiter, 2)));
    assert_eq!(expr("(a + b"), Err(failure(ErrorKind::UnclosedDelimiter, 6)));
    assert_eq!(expr("(a + b]"), Err(failure(ErrorKind::UnclosedDelimiter, 6)));
}

#[test]
fn primary_in_parentheses() {
    assert_eq!(
        primary("( a foo ) b"),
        Ok((send(mk_ident_expr("a"), unary("foo")), "b"))
    );
}

#[test]
fn primary_fails_where_nothing_starts() {
    assert_eq!(primary(")"), Err(failure(ErrorKind::UnexpectedToken, 0)));
    assert_eq!(primary(""), Err(failure(ErrorKind::UnexpectedToken, 0)));
    assert_eq!(expr(""), Err(failure(ErrorKind::UnexpectedToken, 0)));
    assert_eq!(expr(" a"), Err(failure(ErrorKind::UnexpectedToken, 0)));
}

#[test]
fn unary_selector_is_no_keyword() {
    assert_eq!(unary_selector("foo bar"), Ok((unary("foo"), "bar")));
    assert_eq!(unary_selector("foo: bar"), Err(failure(ErrorKind::UnexpectedToken, 3)));
}

#[test]
fn unary_object_may_have_no_message() {
    assert_eq!(unary_object("a + b"), Ok((mk_ident_expr("a"), "+ b")));
    assert_eq!(unary_expr("a + b"), Err(failure(ErrorKind::UnexpectedToken, 2)));
    assert_eq!(unary_expr("3 sin"), Ok((send(num("3"), unary("sin")), "")));
}

#[test]
fn binary_object_may_have_no_message() {
    assert_eq!(binary_object("a b: c"), Ok((mk_ident_expr("a"), "b: c")));
    assert_eq!(binary_expr("a b: c"), Err(failure(ErrorKind::UnexpectedToken, 2)));
}

#[test]
fn binary_messages_associate_to_the_left() {
    let ans = send(send(num("1"), binary("+", num("2"))), binary("*", num("3")));
    assert_eq!(expr("1 + 2 * 3"), Ok((ans, "")));
}

#[test]
fn unary_binds_tighter_than_binary() {
    let ans = send(num("3"), binary("+", send(num("4"), unary("factorial"))));
    assert_eq!(expr("3 + 4 factorial"), Ok((ans, "")));
}

#[test]
fn binary_binds_tighter_than_keyword() {
    let ans = send(
        send(mk_ident_expr("a"), unary("b")),
        Msg::Kwargs(vec![
            keyword("at:", send(num("1"), binary("+", num("2")))),
            keyword("put:", send(mk_ident_expr("x"), unary("y"))),
        ]),
    );
    assert_eq!(expr("a b at: 1 + 2 put: x y"), Ok((ans, "")));
}

#[test]
fn minus_is_a_binary_selector() {
    let ans = send(mk_ident_expr("a"), binary("-", mk_ident_expr("b")));
    assert_eq!(expr("a - b"), Ok((ans, "")));
    let ans = send(mk_ident_expr("a"), binary("-", mk_ident_expr("b")));
    assert_eq!(expr("a-b"), Ok((ans, "")));
}

#[test]
fn keyword_without_argument_is_incomplete() {
    assert_eq!(keyword_expr("a b: "), Err(failure(ErrorKind::IncompleteKeywordMessage, 5)));
    assert_eq!(keyword_expr("a b: )"), Err(failure(ErrorKind::IncompleteKeywordMessage, 5)));
    assert_eq!(keyword_expr("a b: (c"), Err(failure(ErrorKind::UnclosedDelimiter, 7)));
    assert_eq!(expr("a b: "), Ok((mk_ident_expr("a"), "b: ")));
}

#[test]
fn keyword_expr_needs_a_keyword() {
    assert_eq!(keyword_expr("a + b"), Err(failure(ErrorKind::UnexpectedToken, 5)));
}

#[test]
fn message_expr_needs_a_message() {
    assert_eq!(message_expr("a"), Err(failure(ErrorKind::UnexpectedToken, 1)));
    assert_eq!(message_expr("a foo"), Ok((send(mk_ident_expr("a"), unary("foo")), "")));
    assert_eq!(expr("a"), Ok((mk_ident_expr("a"), "")));
}

#[test]
fn cascade_sends_each_message_to_what_the_one_before_gave() {
    let ans = send(send(mk_ident_expr("a"), unary("foo")), unary("bar"));
    assert_eq!(expr("a foo; bar"), Ok((ans, "")));
    let ans = send(
        send(
            send(mk_ident_expr("a"), unary("foo")),
            Msg::Kwargs(vec![keyword("at:", num("1"))]),
        ),
        binary("+", num("2")),
    );
    assert_eq!(expr("a foo; at: 1 ; + 2"), Ok((ans, "")));
}

#[test]
fn cascade_needs_a_further_message() {
    assert_eq!(cascaded_message_expr("a foo"), Err(failure(ErrorKind::UnexpectedToken, 5)));
    assert_eq!(
        cascaded_message_expr("a foo;bar"),
        Ok((send(send(mk_ident_expr("a"), unary("foo")), unary("bar")), ""))
    );
    assert_eq!(expr("a foo;"), Ok((send(mk_ident_expr("a"), unary("foo")), ";")));
}

#[test]
fn assignment_that_fails_leaves_the_name() {
    assert_eq!(expr("a <- "), Ok((mk_ident_expr("a"), "<- ")));
    assert_eq!(expr("a <- )"), Ok((mk_ident_expr("a"), "<- )")));
}

#[test]
fn assignment_of_a_message_send() {
    let ans = Expr::Assign(
        mk_ident("x"),
        Box::new(send(mk_ident_expr("a"), Msg::Kwargs(vec![keyword("b:", num("2"))]))),
    );
    assert_eq!(expr("x <- a b: 2"), Ok((ans, "")));
}

#[test]
fn statement_needs_its_full_stop() {
    assert_eq!(statements("a"), Err(failure(ErrorKind::UnexpectedToken, 1)));
    assert_eq!(statements("a. b"), Err(failure(ErrorKind::UnexpectedToken, 4)));
    assert_eq!(statements("a foo: 1 )"), Err(failure(ErrorKind::UnexpectedToken, 9)));
    assert_eq!(
        statements("a. b."),
        Ok((vec![Statement::E(mk_ident_expr("a")), Statement::E(mk_ident_expr("b"))], ""))
    );
}

#[test]
fn statements_are_empty_where_nothing_begins_one() {
    assert_eq!(statements(""), Ok((vec![], "")));
    assert_eq!(statements(")"), Ok((vec![], ")")));
    assert_eq!(statements("] x"), Ok((vec![], "] x")));
    assert_eq!(statements("a. ]"), Ok((vec![Statement::E(mk_ident_expr("a"))], "]")));
}

#[test]
fn statements_end_with_the_return() {
    let ans = vec![
        Statement::E(mk_ident_expr("a")),
        Statement::E(num("3")),
        Statement::Ret(mk_ident_expr("c")),
    ];
    assert_eq!(statements("a. 3. ^ c. d"), Ok((ans, ". d")));
}

#[test]
fn return_needs_its_expression() {
    assert_eq!(statements("^ "), Err(failure(ErrorKind::UnexpectedToken, 2)));
    assert_eq!(statements("^"), Err(failure(ErrorKind::UnexpectedToken, 1)));
    assert_eq!(statements("a. ^"), Err(failure(ErrorKind::UnexpectedToken, 4)));
    assert_eq!(statements("^ )"), Err(failure(ErrorKind::UnexpectedToken, 2)));
}

#[test]
fn statement_that_begins_and_fails_is_a_failure() {
    assert_eq!(statements("^ 'abc"), Err(failure(ErrorKind::UnterminatedLiteral, 6)));
    assert_eq!(statements("'abc"), Err(failure(ErrorKind::UnterminatedLiteral, 4)));
    assert_eq!(statements("a. (b"), Err(failure(ErrorKind::UnclosedDelimiter, 5)));
    assert_eq!(statements("^ 2r19"), Err(failure(ErrorKind::InvalidDigit, 5)));
    assert_eq!(statements("x <- 37r1."), Err(failure(ErrorKind::UnexpectedToken, 2)));
    assert_eq!(statements("37r1."), Err(failure(ErrorKind::UnexpectedToken, 2)));
    assert_eq!(statements("$"), Err(failure(ErrorKind::UnterminatedLiteral, 1)));
}

#[test]
fn same_input_same_tree() {
    let input = "x <- a b: [ :y | y foo. ^ #(1 $a 'b' c) ] ; bar";
    assert_eq!(expr(input), expr(input));
    assert!(expr(input).is_ok());
    assert_eq!(expr("(a"), expr("(a"));
}

#[test]
fn deep_nesting_is_read_once_per_level() {
    let mut input = String::new();
    for _ in 0..200 {
        input.push('(');
    }
    input.push('a');
    for _ in 0..200 {
        input.push(')');
    }
    assert_eq!(expr(&input), Ok((mk_ident_expr("a"), "")));
    input.pop();
    assert_eq!(expr(&input), Err(failure(ErrorKind::UnclosedDelimiter, 400)));
}

#[test]
fn positions_count_characters() {
    assert_eq!(sm_string("'\u{e9}\u{e9}"), Err(failure(ErrorKind::UnterminatedLiteral, 3)));
    assert_eq!(expr("(\u{e9}t\u{e9}"), Err(failure(ErrorKind::UnclosedDelimiter, 4)));
    assert_eq!(
        sm_string("'\u{e9}' \u{e9}"),
        Ok((Literal::Str(String::from("\u{e9}")), " \u{e9}"))
    );
}

#[test]
fn plain_string_is_its_text() {
    assert_eq!(sm_string("'a b+c' d"), Ok((Literal::Str(String::from("a b+c")), " d")));
}

#[test]
fn names_that_are_read_are_not_empty() {
    let (name, _) = ident("x").unwrap();
    assert_eq!(name.0.len(), 1);
    let (word, _) = keyword_lit("x:").unwrap();
    assert_eq!(word, "x:");
}

#[test]
fn composite_expression() {
    let block_body = vec![
        Statement::E(Expr::Assign(
            mk_ident("t"),
            Box::new(send(mk_ident_expr("y"), binary("*", num("2")))),
        )),
        Statement::Ret(send(
            mk_ident_expr("t"),
            Msg::Kwargs(vec![keyword("max:", Expr::Lit(Literal::Array(vec![
                Literal::Number(Num::int_from_str("1")),
                Literal::Symbol(String::from("at:put:")),
            ])))]),
        )),
    ];
    let ans = Expr::Assign(
        mk_ident("x"),
        Box::new(send(
            send(
                send(mk_ident_expr("a"), unary("b")),
                Msg::Kwargs(vec![
                    keyword(
                        "do:",
                        Expr::Block { vars: vec![mk_ident("y")], statements: block_body },
                    ),
                    keyword(
                        "with:",
                        send(num("3"), binary("+", send(num("4"), unary("sqrt")))),
                    ),
                ]),
            ),
            unary("yourself"),
        )),
    );
    assert_eq!(
        expr(
            "x <- (a b) do: [ :y | t <- y * 2. ^ t max: #(1 at:put:) ] with: 3 + 4 sqrt; yourself"
        ),
        Ok((ans, ""))
    );
}

#[test]
fn keyword_message_ends_where_no_keyword_follows() {
    let ans = send(mk_ident_expr("a"), Msg::Kwargs(vec![keyword("b:", mk_ident_expr("c"))]));
    assert_eq!(expr("a b: c)"), Ok((ans, ")")));
    let ans = send(mk_ident_expr("a"), Msg::Kwargs(vec![keyword("b:", mk_ident_expr("c"))]));
    assert_eq!(expr("a b: c. d"), Ok((ans, ". d")));
}
