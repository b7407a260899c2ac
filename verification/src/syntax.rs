//! Syntax tree of the language, with the mathematical model of each node.

use crate::glyph::{is_alpha_num, is_letter};
use vstd::prelude::*;

verus! {

/// Whether `text` is a name: a letter, then letters and digits.
pub open spec fn is_name(text: Seq<char>) -> bool {
    &&& text.len() > 0
    &&& is_letter(text[0])
    &&& forall|i: int| 0 < i < text.len() ==> is_alpha_num(#[trigger] text[i])
}

/// Whether `text` is a keyword: a name with a colon at its end.
pub open spec fn is_keyword(text: Seq<char>) -> bool {
    text.len() > 1 && text.last() == ':' && is_name(text.drop_last())
}

/// A bare name, or a keyword with its colon.
#[derive(Debug, PartialEq)]
pub struct Ident(pub String);

impl Ident {
    /// The invariant of an identifier: it is a name or a keyword.
    pub open spec fn well_formed(&self) -> bool {
        is_name(self@) || is_keyword(self@)
    }
}

impl Clone for Ident {
    fn clone(&self) -> (r: Self)
        ensures
            r == *self,
    {
        Ident(self.0.clone())
    }
}

impl View for Ident {
    type V = Seq<char>;

    open spec fn view(&self) -> Seq<char> {
        self.0@
    }
}

/// A numeric literal. The digit strings are kept as written; nothing here
/// evaluates them.
#[derive(Debug, PartialEq)]
pub struct Num {
    /// The base, written `Nr` in front of the number.
    pub radix: Option<u8>,
    /// The digits of the integral part.
    pub integer: String,
    /// The digits after the point, where there is one.
    pub mantissa: Option<String>,
    /// The decimal exponent, written `eN`.
    pub exponent: Option<u32>,
}

/// Model of a [`Num`].
pub struct NumView {
    pub radix: Option<u8>,
    pub integer: Seq<char>,
    pub mantissa: Option<Seq<char>>,
    pub exponent: Option<u32>,
}

/// The value of `c` as a digit: `0` to `9` count zero to nine, `A` to `Z` ten
/// to thirty-five; no other character is a digit.
pub open spec fn digit_value(c: char) -> Option<nat> {
    if '0' <= c <= '9' {
        Some((c as int - '0' as int) as nat)
    } else if 'A' <= c <= 'Z' {
        Some((c as int - 'A' as int + 10) as nat)
    } else {
        None
    }
}

/// Whether `c` is a digit of a number written in `base`.
pub open spec fn valid_digit(c: char, base: nat) -> bool {
    digit_value(c) matches Some(v) && v < base
}

/// Whether every character of `digits` is a digit in `base`, and there is at
/// least one.
pub open spec fn valid_digits(digits: Seq<char>, base: nat) -> bool {
    &&& digits.len() > 0
    &&& forall|i: int| 0 <= i < digits.len() ==> valid_digit(#[trigger] digits[i], base)
}

impl NumView {
    /// The base in which the digits are written: the radix, or ten where none
    /// is given.
    pub open spec fn base(self) -> nat {
        match self.radix {
            Some(b) => b as nat,
            None => 10,
        }
    }

    /// The invariant of a number: a radix from 2 to 36, and digits that the
    /// base admits.
    pub open spec fn well_formed(self) -> bool {
        &&& self.radix matches Some(b) ==> 2 <= b <= 36
        &&& valid_digits(self.integer, self.base())
        &&& self.mantissa matches Some(m) ==> valid_digits(m, self.base())
    }
}

impl View for Num {
    type V = NumView;

    open spec fn view(&self) -> NumView {
        NumView {
            radix: self.radix,
            integer: self.integer@,
            mantissa: match self.mantissa {
                Some(m) => Some(m@),
                None => None,
            },
            exponent: self.exponent,
        }
    }
}

/// A constant value.
#[derive(Debug, PartialEq)]
pub enum Literal {
    /// A number.
    Number(Num),
    /// A character, written `$c`.
    Char(char),
    /// A string, with each doubled quote of its text already made one.
    Str(String),
    /// A symbol, written `#name`.
    Symbol(String),
    /// An array of literals, written `#( ... )`. Arrays may hold arrays.
    Array(Vec<Literal>),
}

/// Model of a [`Literal`].
pub enum LiteralView {
    Number(NumView),
    Char(char),
    Str(Seq<char>),
    Symbol(Seq<char>),
    Array(Seq<LiteralView>),
}

impl LiteralView {
    /// The invariant of a literal: numbers are well formed, symbols are not
    /// empty, and the items of an array are well formed in their turn.
    pub open spec fn well_formed(self) -> bool
        decreases self,
    {
        match self {
            LiteralView::Number(n) => n.well_formed(),
            LiteralView::Char(_) => true,
            LiteralView::Str(_) => true,
            LiteralView::Symbol(name) => name.len() > 0,
            LiteralView::Array(items) => forall|i: int|
                0 <= i < items.len() ==> (#[trigger] items[i]).well_formed(),
        }
    }
}

/// The models of `items`, one by one.
pub open spec fn literal_views(items: Seq<Literal>) -> Seq<LiteralView>
    decreases items,
{
    if items.len() == 0 {
        Seq::empty()
    } else {
        literal_views(items.drop_last()).push(items.last()@)
    }
}

impl View for Literal {
    type V = LiteralView;

    open spec fn view(&self) -> LiteralView
        decreases self,
    {
        match self {
            Literal::Number(n) => LiteralView::Number(n@),
            Literal::Char(c) => LiteralView::Char(*c),
            Literal::Str(s) => LiteralView::Str(s@),
            Literal::Symbol(s) => LiteralView::Symbol(s@),
            Literal::Array(items) => LiteralView::Array(literal_views(items@)),
        }
    }
}

impl Clone for Num {
    fn clone(&self) -> (r: Self)
        ensures
            r == *self,
    {
        Num {
            radix: self.radix,
            integer: self.integer.clone(),
            mantissa: match &self.mantissa {
                Some(m) => Some(m.clone()),
                None => None,
            },
            exponent: self.exponent,
        }
    }
}

impl Clone for Literal {
    fn clone(&self) -> (r: Self)
        ensures
            r@ == self@,
        decreases self,
    {
        match self {
            Literal::Number(n) => Literal::Number(n.clone()),
            Literal::Char(c) => Literal::Char(*c),
            Literal::Str(s) => Literal::Str(s.clone()),
            Literal::Symbol(s) => Literal::Symbol(s.clone()),
            Literal::Array(items) => {
                let mut out: Vec<Literal> = Vec::new();
                let mut i: usize = 0;
                while i < items.len()
                    invariant
                        i <= items.len(),
                        out.len() == i,
                        forall|j: int| 0 <= j < i ==> out[j]@ == items[j]@,
                        forall|j: int|
                            0 <= j < items.len() ==> decreases_to!(self => #[trigger] items[j]),
                    decreases items.len() - i,
                {
                    out.push(items[i].clone());
                    i += 1;
                }
                proof {
                    lemma_views(out@, Seq::empty(), Seq::empty());
                    lemma_views(items@, Seq::empty(), Seq::empty());
                    assert(views(out@) =~= views(items@));
                }
                Literal::Array(out)
            },
        }
    }
}

/// One keyword of a keyword message with its argument.
#[derive(Debug, PartialEq)]
pub struct Keyword {
    /// The keyword, with its colon.
    pub id: Ident,
    /// The argument.
    pub val: Expr,
}

/// A message: the selector and its arguments.
#[derive(Debug, PartialEq)]
pub enum Msg {
    /// A unary message: a name.
    Unary(Ident),
    /// A binary message: the selector and the argument.
    Binary(String, Box<Expr>),
    /// A keyword message: one or more keywords, each with its argument, in
    /// the order in which they were written.
    Kwargs(Vec<Keyword>),
}

/// One element of a statement sequence.
#[derive(Debug, PartialEq)]
pub enum Statement {
    /// An expression.
    E(Expr),
    /// A return, `^` and an expression.
    Ret(Expr),
}

/// One keyword of a keyword method pattern with the name of its parameter.
#[derive(Debug, PartialEq)]
pub struct KeyPat {
    /// The keyword.
    pub keyword: Ident,
    /// The name of the parameter.
    pub var: Ident,
}

/// The pattern of a method: its selector and the names of its parameters.
#[derive(Debug, PartialEq)]
pub enum MsgPat {
    /// A unary selector.
    Unary(Ident),
    /// A binary selector and the name of its parameter.
    Bin(Ident, Ident),
    /// Keywords, each with the name of its parameter.
    Kwargs(Vec<KeyPat>),
}

/// A method: pattern, temporaries and body. No rule of the grammar builds
/// one.
#[derive(Debug, PartialEq)]
pub struct Method {
    /// The pattern.
    pub sig: MsgPat,
    /// The temporaries, where any are declared.
    pub temps: Option<Vec<Ident>>,
    /// The body, where there is one.
    pub stmts: Option<Vec<Statement>>,
}

/// An expression.
#[derive(Debug, PartialEq)]
pub enum Expr {
    /// A reference to a name.
    Id(Ident),
    /// An assignment to a name. What is assigned may be an assignment again.
    Assign(Ident, Box<Expr>),
    /// A literal.
    Lit(Literal),
    /// A message sent to a receiver.
    Message { receiver: Box<Expr>, selector: Msg },
    /// A block: its parameters and its statements.
    Block { vars: Vec<Ident>, statements: Vec<Statement> },
    /// A method.
    Method(Method),
}

/// Whatever the language can say. For now, expressions only.
pub enum Syntax {
    Expr(Expr),
}

/// Model of a [`Keyword`].
pub struct KeywordView {
    pub id: Seq<char>,
    pub val: ExprView,
}

/// Model of a [`Msg`].
pub enum MsgView {
    Unary(Seq<char>),
    Binary(Seq<char>, Box<ExprView>),
    Kwargs(Seq<KeywordView>),
}

/// Model of a [`Statement`].
pub enum StatementView {
    E(ExprView),
    Ret(ExprView),
}

/// Model of a [`KeyPat`].
pub struct KeyPatView {
    pub keyword: Seq<char>,
    pub var: Seq<char>,
}

/// Model of a [`MsgPat`].
pub enum MsgPatView {
    Unary(Seq<char>),
    Bin(Seq<char>, Seq<char>),
    Kwargs(Seq<KeyPatView>),
}

/// Model of a [`Method`].
pub struct MethodView {
    pub sig: MsgPatView,
    pub temps: Option<Seq<Seq<char>>>,
    pub stmts: Option<Seq<StatementView>>,
}

/// Model of an [`Expr`].
pub enum ExprView {
    Id(Seq<char>),
    Assign(Seq<char>, Box<ExprView>),
    Lit(LiteralView),
    Message { receiver: Box<ExprView>, selector: MsgView },
    Block { vars: Seq<Seq<char>>, statements: Seq<StatementView> },
    Method(MethodView),
}

/// Model of a [`Syntax`].
pub enum SyntaxView {
    Expr(ExprView),
}

impl KeywordView {
    /// The invariant of a keyword with its argument: the keyword is a name
    /// with a colon at its end, and the argument is well formed.
    pub open spec fn well_formed(self) -> bool
        decreases self,
    {
        is_keyword(self.id) && self.val.well_formed()
    }
}

impl MsgView {
    /// The invariant of a message: a unary selector that is a name, a binary
    /// selector of one or two characters, at least one keyword in a keyword
    /// message, and well-formed arguments.
    pub open spec fn well_formed(self) -> bool
        decreases self,
    {
        match self {
            MsgView::Unary(name) => is_name(name),
            MsgView::Binary(selector, argument) => 1 <= selector.len() <= 2
                && argument.well_formed(),
            MsgView::Kwargs(pairs) => pairs.len() > 0 && forall|i: int|
                0 <= i < pairs.len() ==> (#[trigger] pairs[i]).well_formed(),
        }
    }
}

impl StatementView {
    /// The invariant of a statement: that of its expression.
    pub open spec fn well_formed(self) -> bool
        decreases self,
    {
        match self {
            StatementView::E(e) => e.well_formed(),
            StatementView::Ret(e) => e.well_formed(),
        }
    }
}

impl ExprView {
    /// The invariant of an expression that the grammar can give: what stands
    /// for a name is one, literals and messages are well formed, and so is
    /// every part. The grammar gives no method.
    pub open spec fn well_formed(self) -> bool
        decreases self,
    {
        match self {
            ExprView::Id(name) => is_name(name),
            ExprView::Assign(name, value) => is_name(name) && value.well_formed(),
            ExprView::Lit(value) => value.well_formed(),
            ExprView::Message { receiver, selector } => receiver.well_formed()
                && selector.well_formed(),
            ExprView::Block { vars, statements } => {
                &&& forall|i: int| 0 <= i < vars.len() ==> is_name(#[trigger] vars[i])
                &&& forall|i: int|
                    0 <= i < statements.len() ==> (#[trigger] statements[i]).well_formed()
            },
            ExprView::Method(_) => false,
        }
    }
}

/// Whether every one of `statements` is well formed.
pub open spec fn all_well_formed(statements: Seq<StatementView>) -> bool {
    forall|i: int| 0 <= i < statements.len() ==> (#[trigger] statements[i]).well_formed()
}

/// The models of a sequence of nodes, one by one.
pub open spec fn views<T: View>(nodes: Seq<T>) -> Seq<T::V> {
    Seq::new(nodes.len(), |i: int| nodes[i]@)
}

impl DeepView for Ident {
    type V = Seq<char>;

    open spec fn deep_view(&self) -> Seq<char> {
        self@
    }
}

impl DeepView for Num {
    type V = NumView;

    open spec fn deep_view(&self) -> NumView {
        self@
    }
}

impl DeepView for Literal {
    type V = LiteralView;

    open spec fn deep_view(&self) -> LiteralView {
        self@
    }
}

impl DeepView for Keyword {
    type V = KeywordView;

    open spec fn deep_view(&self) -> KeywordView {
        self@
    }
}

impl DeepView for Msg {
    type V = MsgView;

    open spec fn deep_view(&self) -> MsgView {
        self@
    }
}

impl DeepView for Statement {
    type V = StatementView;

    open spec fn deep_view(&self) -> StatementView {
        self@
    }
}

impl DeepView for Expr {
    type V = ExprView;

    open spec fn deep_view(&self) -> ExprView {
        self@
    }
}

/// The model of a sequence of nodes inside a node is the sequence of their
/// models.
pub proof fn lemma_views(
    items: Seq<Literal>,
    pairs: Seq<Keyword>,
    statements: Seq<Statement>,
)
    ensures
        literal_views(items) == views(items),
        keyword_views(pairs) == views(pairs),
        statement_views(statements) == views(statements),
    decreases items.len() + pairs.len() + statements.len(),
{
    reveal_with_fuel(literal_views, 2);
    reveal_with_fuel(keyword_views, 2);
    reveal_with_fuel(statement_views, 2);
    if items.len() > 0 {
        lemma_views(items.drop_last(), Seq::empty(), Seq::empty());
        assert(literal_views(items) == views(items.drop_last()).push(items.last()@));
    }
    if pairs.len() > 0 {
        lemma_views(Seq::empty(), pairs.drop_last(), Seq::empty());
        assert(keyword_views(pairs) == views(pairs.drop_last()).push(pairs.last()@));
    }
    if statements.len() > 0 {
        lemma_views(Seq::empty(), Seq::empty(), statements.drop_last());
        assert(statement_views(statements) == views(statements.drop_last()).push(
            statements.last()@,
        ));
    }
    assert(literal_views(items) =~= views(items));
    assert(keyword_views(pairs) =~= views(pairs));
    assert(statement_views(statements) =~= views(statements));
}

impl View for KeyPat {
    type V = KeyPatView;

    open spec fn view(&self) -> KeyPatView {
        KeyPatView { keyword: self.keyword@, var: self.var@ }
    }
}

impl View for MsgPat {
    type V = MsgPatView;

    open spec fn view(&self) -> MsgPatView {
        match self {
            MsgPat::Unary(name) => MsgPatView::Unary(name@),
            MsgPat::Bin(name, var) => MsgPatView::Bin(name@, var@),
            MsgPat::Kwargs(pats) => MsgPatView::Kwargs(views(pats@)),
        }
    }
}

/// The models of `pairs`, one by one.
pub open spec fn keyword_views(pairs: Seq<Keyword>) -> Seq<KeywordView>
    decreases pairs,
{
    if pairs.len() == 0 {
        Seq::empty()
    } else {
        keyword_views(pairs.drop_last()).push(pairs.last()@)
    }
}

impl View for Keyword {
    type V = KeywordView;

    open spec fn view(&self) -> KeywordView
        decreases self,
    {
        KeywordView { id: self.id@, val: self.val@ }
    }
}

impl View for Msg {
    type V = MsgView;

    open spec fn view(&self) -> MsgView
        decreases self,
    {
        match self {
            Msg::Unary(name) => MsgView::Unary(name@),
            Msg::Binary(name, arg) => MsgView::Binary(name@, Box::new((**arg)@)),
            Msg::Kwargs(pairs) => MsgView::Kwargs(keyword_views(pairs@)),
        }
    }
}

/// The models of `statements`, one by one.
pub open spec fn statement_views(statements: Seq<Statement>) -> Seq<StatementView>
    decreases statements,
{
    if statements.len() == 0 {
        Seq::empty()
    } else {
        statement_views(statements.drop_last()).push(statements.last()@)
    }
}

impl View for Statement {
    type V = StatementView;

    open spec fn view(&self) -> StatementView
        decreases self,
    {
        match self {
            Statement::E(e) => StatementView::E(e@),
            Statement::Ret(e) => StatementView::Ret(e@),
        }
    }
}

impl View for Method {
    type V = MethodView;

    open spec fn view(&self) -> MethodView
        decreases self,
    {
        MethodView {
            sig: self.sig@,
            temps: match self.temps {
                Some(names) => Some(views(names@)),
                None => None,
            },
            stmts: match self.stmts {
                Some(body) => Some(statement_views(body@)),
                None => None,
            },
        }
    }
}

impl View for Expr {
    type V = ExprView;

    open spec fn view(&self) -> ExprView
        decreases self,
    {
        match self {
            Expr::Id(name) => ExprView::Id(name@),
            Expr::Assign(name, value) => ExprView::Assign(name@, Box::new((**value)@)),
            Expr::Lit(value) => ExprView::Lit(value@),
            Expr::Message { receiver, selector } => ExprView::Message {
                receiver: Box::new((**receiver)@),
                selector: selector@,
            },
            Expr::Block { vars, statements } => ExprView::Block {
                vars: views(vars@),
                statements: statement_views(statements@),
            },
            Expr::Method(method) => ExprView::Method(method@),
        }
    }
}

impl View for Syntax {
    type V = SyntaxView;

    open spec fn view(&self) -> SyntaxView {
        match self {
            Syntax::Expr(e) => SyntaxView::Expr(e@),
        }
    }
}

impl Literal {
    /// The array literal that holds `items`.
    pub(crate) fn array(items: Vec<Literal>) -> (l: Literal)
        ensures
            l@ == LiteralView::Array(views(items@)),
    {
        proof {
            reveal_with_fuel(<Literal as View>::view, 2);
            lemma_views(items@, Seq::empty(), Seq::empty());
        }
        Literal::Array(items)
    }
}

/// The model of `selector` sent to `receiver`.
pub open spec fn send(receiver: ExprView, selector: MsgView) -> ExprView {
    ExprView::Message { receiver: Box::new(receiver), selector }
}

impl Msg {
    /// The binary message `selector` with `argument`.
    pub(crate) fn binary(selector: String, argument: Expr) -> (m: Msg)
        ensures
            m@ == MsgView::Binary(selector@, Box::new(argument@)),
    {
        proof {
            reveal_with_fuel(<Msg as View>::view, 2);
        }
        Msg::Binary(selector, Box::new(argument))
    }

    /// The keyword message made of `pairs`.
    pub(crate) fn kwargs(pairs: Vec<Keyword>) -> (m: Msg)
        ensures
            m@ == MsgView::Kwargs(views(pairs@)),
    {
        proof {
            reveal_with_fuel(<Msg as View>::view, 2);
            lemma_views(Seq::empty(), pairs@, Seq::empty());
        }
        Msg::Kwargs(pairs)
    }
}

impl Keyword {
    /// The keyword `id` with the argument `val`.
    pub(crate) fn new(id: String, val: Expr) -> (k: Keyword)
        ensures
            k@ == (KeywordView { id: id@, val: val@ }),
    {
        proof {
            reveal_with_fuel(<Keyword as View>::view, 2);
        }
        Keyword { id: Ident(id), val }
    }
}

impl Expr {
    /// `selector` sent to `receiver`.
    pub(crate) fn message(receiver: Expr, selector: Msg) -> (e: Expr)
        ensures
            e@ == send(receiver@, selector@),
    {
        proof {
            reveal_with_fuel(<Expr as View>::view, 2);
        }
        Expr::Message { receiver: Box::new(receiver), selector }
    }

    /// `value` assigned to `name`.
    pub(crate) fn assign(name: Ident, value: Expr) -> (e: Expr)
        ensures
            e@ == ExprView::Assign(name@, Box::new(value@)),
    {
        proof {
            reveal_with_fuel(<Expr as View>::view, 2);
        }
        Expr::Assign(name, Box::new(value))
    }

    /// The block with the parameters `vars` and the body `statements`.
    pub(crate) fn block(vars: Vec<Ident>, statements: Vec<Statement>) -> (e: Expr)
        ensures
            e@ == (ExprView::Block { vars: views(vars@), statements: views(statements@) }),
    {
        proof {
            reveal_with_fuel(<Expr as View>::view, 2);
            lemma_views(Seq::empty(), Seq::empty(), statements@);
        }
        Expr::Block { vars, statements }
    }
}

impl Statement {
    /// The statement that evaluates `e`.
    pub(crate) fn of(e: Expr) -> (st: Statement)
        ensures
            st@ == StatementView::E(e@),
    {
        proof {
            reveal_with_fuel(<Statement as View>::view, 2);
        }
        Statement::E(e)
    }

    /// The statement that returns `e`.
    pub(crate) fn returning(e: Expr) -> (st: Statement)
        ensures
            st@ == StatementView::Ret(e@),
    {
        proof {
            reveal_with_fuel(<Statement as View>::view, 2);
        }
        Statement::Ret(e)
    }
}

/// A copy of each of `names`.
pub(crate) fn clone_idents(names: &Vec<Ident>) -> (r: Vec<Ident>)
    ensures
        r@ == names@,
{
    let mut out: Vec<Ident> = Vec::new();
    let mut i: usize = 0;
    while i < names.len()
        invariant
            i <= names.len(),
            out@ == names@.take(i as int),
        decreases names.len() - i,
    {
        out.push(names[i].clone());
        i += 1;
        assert(out@ =~= names@.take(i as int));
    }
    assert(names@.take(names.len() as int) =~= names@);
    out
}

/// A copy of each of `statements`.
pub(crate) fn clone_statements(statements: &Vec<Statement>) -> (r: Vec<Statement>)
    ensures
        views(r@) == views(statements@),
    decreases statements,
{
    let mut out: Vec<Statement> = Vec::new();
    let mut i: usize = 0;
    while i < statements.len()
        invariant
            i <= statements.len(),
            out.len() == i,
            forall|j: int| 0 <= j < i ==> out[j]@ == statements[j]@,
        decreases statements.len() - i,
    {
        out.push(statements[i].clone());
        i += 1;
    }
    assert(views(out@) =~= views(statements@));
    out
}

/// A copy of each of `pairs`.
pub(crate) fn clone_keywords(pairs: &Vec<Keyword>) -> (r: Vec<Keyword>)
    ensures
        views(r@) == views(pairs@),
    decreases pairs,
{
    let mut out: Vec<Keyword> = Vec::new();
    let mut i: usize = 0;
    while i < pairs.len()
        invariant
            i <= pairs.len(),
            out.len() == i,
            forall|j: int| 0 <= j < i ==> out[j]@ == pairs[j]@,
        decreases pairs.len() - i,
    {
        out.push(pairs[i].clone());
        i += 1;
    }
    assert(views(out@) =~= views(pairs@));
    out
}

impl Clone for KeyPat {
    fn clone(&self) -> (r: Self)
        ensures
            r == *self,
    {
        KeyPat { keyword: self.keyword.clone(), var: self.var.clone() }
    }
}

impl Clone for MsgPat {
    fn clone(&self) -> (r: Self)
        ensures
            r@ == self@,
    {
        match self {
            MsgPat::Unary(name) => MsgPat::Unary(name.clone()),
            MsgPat::Bin(name, var) => MsgPat::Bin(name.clone(), var.clone()),
            MsgPat::Kwargs(pats) => {
                let mut out: Vec<KeyPat> = Vec::new();
                let mut i: usize = 0;
                while i < pats.len()
                    invariant
                        i <= pats.len(),
                        out@ == pats@.take(i as int),
                    decreases pats.len() - i,
                {
                    out.push(pats[i].clone());
                    i += 1;
                    assert(out@ =~= pats@.take(i as int));
                }
                assert(pats@.take(pats.len() as int) =~= pats@);
                MsgPat::Kwargs(out)
            },
        }
    }
}

impl Clone for Keyword {
    fn clone(&self) -> (r: Self)
        ensures
            r@ == self@,
        decreases self,
    {
        proof {
            reveal_with_fuel(<Keyword as View>::view, 2);
        }
        Keyword { id: self.id.clone(), val: self.val.clone() }
    }
}

impl Clone for Msg {
    fn clone(&self) -> (r: Self)
        ensures
            r@ == self@,
        decreases self,
    {
        proof {
            reveal_with_fuel(<Msg as View>::view, 2);
        }
        match self {
            Msg::Unary(name) => Msg::Unary(name.clone()),
            Msg::Binary(name, argument) => Msg::binary(name.clone(), (**argument).clone()),
            Msg::Kwargs(pairs) => {
                proof {
                    lemma_views(Seq::empty(), pairs@, Seq::empty());
                }
                Msg::kwargs(clone_keywords(pairs))
            },
        }
    }
}

impl Clone for Statement {
    fn clone(&self) -> (r: Self)
        ensures
            r@ == self@,
        decreases self,
    {
        proof {
            reveal_with_fuel(<Statement as View>::view, 2);
        }
        match self {
            Statement::E(e) => Statement::E(e.clone()),
            Statement::Ret(e) => Statement::Ret(e.clone()),
        }
    }
}

impl Clone for Method {
    fn clone(&self) -> (r: Self)
        ensures
            r@ == self@,
        decreases self,
    {
        proof {
            reveal_with_fuel(<Method as View>::view, 2);
        }
        let temps = match &self.temps {
            Some(names) => Some(clone_idents(names)),
            None => None,
        };
        let stmts = match &self.stmts {
            Some(body) => {
                let copy = clone_statements(body);
                proof {
                    lemma_views(Seq::empty(), Seq::empty(), body@);
                    lemma_views(Seq::empty(), Seq::empty(), copy@);
                }
                Some(copy)
            },
            None => None,
        };
        Method { sig: self.sig.clone(), temps, stmts }
    }
}

impl Clone for Expr {
    fn clone(&self) -> (r: Self)
        ensures
            r@ == self@,
        decreases self,
    {
        proof {
            reveal_with_fuel(<Expr as View>::view, 2);
        }
        match self {
            Expr::Id(name) => Expr::Id(name.clone()),
            Expr::Assign(name, value) => Expr::assign(name.clone(), (**value).clone()),
            Expr::Lit(value) => Expr::Lit(value.clone()),
            Expr::Message { receiver, selector } => Expr::message(
                (**receiver).clone(),
                selector.clone(),
            ),
            Expr::Block { vars, statements } => {
                proof {
                    lemma_views(Seq::empty(), Seq::empty(), statements@);
                }
                Expr::block(clone_idents(vars), clone_statements(statements))
            },
            Expr::Method(method) => Expr::Method(method.clone()),
        }
    }
}

/// The identifier with the text `s`, whatever the text is. It is well formed
/// where `s` is a name or a keyword, and only there.
pub fn mk_ident(s: &str) -> (id: Ident)
    ensures
        id@ == s@,
        id.well_formed() <==> is_name(s@) || is_keyword(s@),
{
    Ident(String::from_str(s))
}

/// The expression that refers to `s`, whatever the text is. It is well
/// formed where `s` is a name, and only there.
pub fn mk_ident_expr(s: &str) -> (e: Expr)
    ensures
        e@ == ExprView::Id(s@),
        e@.well_formed() <==> is_name(s@),
{
    Expr::Id(mk_ident(s))
}

impl Num {
    /// The number in base ten whose integral digits are `s`, whatever the
    /// text is, with no radix, fraction or exponent. It is well formed where
    /// `s` is one or more decimal digits, and only there.
    pub fn int_from_str(s: &str) -> (n: Num)
        ensures
            n@ == (NumView { radix: None, integer: s@, mantissa: None, exponent: None }),
            n@.well_formed() <==> valid_digits(s@, 10),
    {
        Num { integer: String::from_str(s), radix: None, mantissa: None, exponent: None }
    }

    /// The literal expression of this number, well formed where the number
    /// is.
    pub fn to_expr(self) -> (e: Expr)
        ensures
            e@ == ExprView::Lit(LiteralView::Number(self@)),
            e@.well_formed() <==> self@.well_formed(),
    {
        Expr::Lit(Literal::Number(self))
    }
}

} // verus!
