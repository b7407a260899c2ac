use smoltok::compiler::memory::{Class, Heap, Object, Pointer};
use smoltok::glyph::{classify, scan, Glyph};
use smoltok::syntax::{mk_ident, mk_ident_expr, Expr, Ident, Literal, Num};

#[test]
fn mk_ident_expr_is_a_name() {
    assert_eq!(mk_ident_expr("hey"), Expr::Id(Ident(String::from("hey"))));
}

#[test]
fn mk_ident_is_the_text() {
    assert_eq!(mk_ident("index"), Ident(String::from("index")));
    assert_eq!(mk_ident(""), Ident(String::new()));
}

#[test]
fn int_from_str_has_digits_only() {
    assert_eq!(
        Num::int_from_str("42"),
        Num { radix: None, integer: String::from("42"), mantissa: None, exponent: None }
    );
}

#[test]
fn to_expr_is_a_literal() {
    assert_eq!(
        Num::int_from_str("42").to_expr(),
        Expr::Lit(Literal::Number(Num::int_from_str("42")))
    );
}

#[test]
fn new_heap_is_empty() {
    let heap = Heap::new();
    assert!(heap.objects.is_empty());
    assert_eq!(heap.curr_idx, Pointer(0));
}

#[test]
fn fetch_pointer_follows_a_field() {
    let mut heap = Heap::new();
    heap.objects.insert(7, Object { class: None, fields: vec![] });
    let holder = Object { class: None, fields: vec![Pointer(3), Pointer(7)] };
    assert_eq!(heap.fetch_pointer(1, holder), Some(&Object { class: None, fields: vec![] }));
    let holder = Object { class: None, fields: vec![Pointer(3), Pointer(7)] };
    assert_eq!(heap.fetch_pointer(0, holder), None);
}

#[test]
fn clone_of_an_object_is_equal() {
    let class = Class { obj: Object { class: None, fields: vec![Pointer(1)] } };
    let object = Object { class: Some(Box::new(class)), fields: vec![Pointer(2), Pointer(3)] };
    assert_eq!(object.clone(), object);
    let mut heap = Heap::new();
    heap.objects.insert(2, object);
    assert_eq!(heap.clone(), heap);
}

#[test]
fn clone_of_a_tree_is_equal() {
    let input = "x <- a b: [ :y | y foo. ^ #(1 $a 'b' c (d)) ] ; bar + 16r1F.Ae3";
    let (tree, rest) = smoltok::parser::expr(input).unwrap();
    assert_eq!(rest, "");
    assert_eq!(tree.clone(), tree);
}

#[test]
fn classify_tells_the_classes() {
    assert_eq!(
        classify('a'),
        Glyph { ch: 'a', letter: true, alnum: true, upper: false, space: false }
    );
    assert_eq!(
        classify('Z'),
        Glyph { ch: 'Z', letter: true, alnum: true, upper: true, space: false }
    );
    assert_eq!(
        classify('7'),
        Glyph { ch: '7', letter: false, alnum: true, upper: false, space: false }
    );
    assert_eq!(
        classify('\n'),
        Glyph { ch: '\n', letter: false, alnum: false, upper: false, space: true }
    );
    assert_eq!(
        classify('+'),
        Glyph { ch: '+', letter: false, alnum: false, upper: false, space: false }
    );
    assert_eq!(
        classify('\u{c9}'),
        Glyph { ch: '\u{c9}', letter: true, alnum: true, upper: true, space: false }
    );
}

#[test]
fn scan_keeps_every_character_in_order() {
    let glyphs = scan("a \u{e9}1");
    let text: String = glyphs.iter().map(|g| g.ch).collect();
    assert_eq!(text, "a \u{e9}1");
    assert_eq!(glyphs.len(), 4);
    assert!(glyphs[1].space);
    assert!(glyphs[2].letter);
    assert!(scan("").is_empty());
}

#[test]
fn constructors_take_any_text() {
    assert_eq!(mk_ident("b:"), Ident(String::from("b:")));
    assert_eq!(mk_ident("1 a"), Ident(String::from("1 a")));
    assert_eq!(Num::int_from_str("1A").integer, "1A");
    assert_eq!(Num::int_from_str("").integer, "");
    assert_eq!(mk_ident_expr(""), Expr::Id(Ident(String::new())));
}
