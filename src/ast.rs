//! The reader: tokens to expression trees, by recursive descent.
use crate::error::ReadError;
use crate::lexer::{Lexeme, Token};
use vstd::prelude::*;

verus! {

/// A node of the expression tree. Every node owns its children.
#[derive(Debug, PartialEq)]
pub enum Expr {
    Integer(i64),
    /// A float literal, kept as its source text.
    Float(String),
    String(String),
    Keyword(String),
    Symbol(String),
    /// A parenthesized form; children in source order.
    List(Vec<Expr>),
    /// A quoted sub-expression.
    Quote(Box<Expr>),
}

/// The mathematical model of an expression tree.
pub enum Datum {
    Integer(i64),
    Float(Seq<char>),
    Str(Seq<char>),
    Keyword(Seq<char>),
    Symbol(Seq<char>),
    List(Seq<Datum>),
    Quote(Box<Datum>),
}

/// The model of an expression tree.
pub open spec fn datum_of(e: Expr) -> Datum
    decreases e,
{
    match e {
        Expr::Integer(n) => Datum::Integer(n),
        Expr::Float(t) => Datum::Float(t@),
        Expr::String(t) => Datum::Str(t@),
        Expr::Keyword(t) => Datum::Keyword(t@),
        Expr::Symbol(t) => Datum::Symbol(t@),
        Expr::List(v) => Datum::List(
            Seq::new(
                v.len() as nat,
                |i: int|
                    if 0 <= i < v.len() {
                        datum_of(v[i])
                    } else {
                        Datum::Integer(0)
                    },
            ),
        ),
        Expr::Quote(b) => Datum::Quote(Box::new(datum_of(*b))),
    }
}

impl View for Expr {
    type V = Datum;

    open spec fn view(&self) -> Datum {
        datum_of(*self)
    }
}

/// The models of a run of expression trees.
pub open spec fn datums(v: Seq<Expr>) -> Seq<Datum> {
    Seq::new(v.len(), |i: int| v[i]@)
}

/// Reads one expression from the tokens `ts` starting at `i`: the tree, or the
/// error, and (for a tree) the position just after its last token.
pub open spec fn read_expr(ts: Seq<Lexeme>, i: int) -> (Result<Datum, ReadError>, int)
    decreases ts.len() - i, 0int,
{
    if i < 0 || i >= ts.len() {
        (Err(ReadError::UnexpectedEndOfInput), i)
    } else {
        match ts[i] {
            Lexeme::OpenParen => {
                let r = read_list(ts, i + 1);
                match r.0 {
                    Ok(v) => (Ok(Datum::List(v)), r.1),
                    Err(e) => (Err(e), r.1),
                }
            },
            Lexeme::CloseParen => (Err(ReadError::UnexpectedToken), i + 1),
            Lexeme::Integer(n) => (Ok(Datum::Integer(n)), i + 1),
            Lexeme::Float(t) => (Ok(Datum::Float(t)), i + 1),
            Lexeme::Str(t) => (Ok(Datum::Str(t)), i + 1),
            Lexeme::Keyword(t) => (Ok(Datum::Keyword(t)), i + 1),
            Lexeme::Symbol(t) => (Ok(Datum::Symbol(t)), i + 1),
            Lexeme::Quote => {
                let r = read_expr(ts, i + 1);
                match r.0 {
                    Ok(d) => (Ok(Datum::Quote(Box::new(d))), r.1),
                    Err(e) => (Err(e), r.1),
                }
            },
        }
    }
}

/// Reads the elements of a list whose opening parenthesis stands just before
/// `i`, up to and including its closing parenthesis.
pub open spec fn read_list(ts: Seq<Lexeme>, i: int) -> (Result<Seq<Datum>, ReadError>, int)
    decreases ts.len() - i, 1int,
{
    if i < 0 || i >= ts.len() {
        (Err(ReadError::UnexpectedEndOfInput), i)
    } else if ts[i] is CloseParen {
        (Ok(Seq::empty()), i + 1)
    } else {
        let r = read_expr(ts, i);
        match r.0 {
            Err(e) => (Err(e), r.1),
            // A tree read without error always ends past `i`; the test makes
            // the termination of this recursion evident.
            Ok(d) => if i < r.1 <= ts.len() {
                let rest = read_list(ts, r.1);
                match rest.0 {
                    Ok(v) => (Ok(seq![d] + v), rest.1),
                    Err(e) => (Err(e), rest.1),
                }
            } else {
                (Err(ReadError::UnexpectedEndOfInput), r.1)
            },
        }
    }
}

/// A reader over a sequence of tokens.
pub struct Parser<'a> {
    tokens: &'a [Token],
    pos: usize,
}

impl<'a> Parser<'a> {
    /// The tokens being read, as models.
    pub closed spec fn tokens(&self) -> Seq<Lexeme> {
        self.tokens@.map_values(|t: Token| t@)
    }

    /// The position of the next token to read.
    pub closed spec fn cursor(&self) -> int {
        self.pos as int
    }

    pub closed spec fn wf(&self) -> bool {
        self.pos <= self.tokens@.len()
    }

    /// A reader at the first of `tokens`.
    pub fn new(tokens: &'a [Token]) -> (r: Parser<'a>)
        ensures
            r.wf(),
            r.tokens() == tokens@.map_values(|t: Token| t@),
            r.cursor() == 0,
    {
        Parser { tokens, pos: 0 }
    }

    fn next_token(&mut self) -> (r: Option<&'a Token>)
        requires
            old(self).wf(),
        ensures
            final(self).wf(),
            final(self).tokens == old(self).tokens,
            old(self).pos < old(self).tokens@.len() ==> r == Some(&old(self).tokens@[old(self).pos as int])
                && final(self).pos == old(self).pos + 1,
            old(self).pos >= old(self).tokens@.len() ==> r is None && final(self).pos == old(self).pos,
    {
        if self.pos < self.tokens.len() {
            let ts: &'a [Token] = self.tokens;
            let t: &'a Token = &ts[self.pos];
            self.pos = self.pos + 1;
            Some(t)
        } else {
            None
        }
    }

    fn peek_token(&self) -> (r: Option<&'a Token>)
        ensures
            self.pos < self.tokens@.len() ==> r == Some(&self.tokens@[self.pos as int]),
            self.pos >= self.tokens@.len() ==> r is None,
    {
        if self.pos < self.tokens.len() {
            let ts: &'a [Token] = self.tokens;
            Some(&ts[self.pos])
        } else {
            None
        }
    }

    fn parse_list(&mut self) -> (r: Result<Expr, ReadError>)
        requires
            old(self).wf(),
        ensures
            final(self).wf(),
            final(self).tokens == old(self).tokens,
            ({
                let p = read_list(old(self).tokens(), old(self).cursor());
                &&& r is Ok <==> p.0 is Ok
                &&& r is Ok ==> r->Ok_0@ == Datum::List(p.0->Ok_0) && final(self).cursor() == p.1
                    && old(self).cursor() < final(self).cursor()
                &&& r is Err ==> r->Err_0 == p.0->Err_0
            }),
        decreases old(self).tokens@.len() - old(self).pos, 1int,
    {
        let ghost ts = self.tokens();
        let ghost start = self.pos as int;
        let mut list: Vec<Expr> = Vec::new();
        loop
            invariant
                self.wf(),
                self.tokens == old(self).tokens,
                ts == old(self).tokens(),
                start == old(self).pos,
                start <= self.pos,
                ({
                    let p = read_list(ts, start);
                    let q = read_list(ts, self.cursor());
                    &&& p.0 is Ok <==> q.0 is Ok
                    &&& q.0 is Ok ==> p.0->Ok_0 == datums(list@) + q.0->Ok_0 && p.1 == q.1
                    &&& q.0 is Err ==> p.0->Err_0 == q.0->Err_0
                }),
            decreases self.tokens@.len() - self.pos,
        {
            match self.peek_token() {
                None => {
                    return Err(ReadError::UnexpectedEndOfInput);
                },
                Some(Token::CloseParen) => {
                    self.next_token();
                    proof {
                        assert(datums(list@) + Seq::<Datum>::empty() =~= datums(list@));
                        assert(Expr::List(list)@->List_0 =~= datums(list@));
                    }
                    return Ok(Expr::List(list));
                },
                Some(_) => {
                    let ghost here = self.cursor();
                    match self.parse_expr() {
                        Ok(e) => {
                            let ghost rest = read_list(ts, self.cursor()).0;
                            proof {
                                if rest is Ok {
                                    assert(datums(list@.push(e)) + rest->Ok_0 =~= datums(list@) + (
                                    seq![e@] + rest->Ok_0));
                                }
                            }
                            list.push(e);
                        },
                        Err(x) => {
                            return Err(x);
                        },
                    }
                },
            }
        }
    }

    fn parse_expr(&mut self) -> (r: Result<Expr, ReadError>)
        requires
            old(self).wf(),
        ensures
            final(self).wf(),
            final(self).tokens == old(self).tokens,
            ({
                let p = read_expr(old(self).tokens(), old(self).cursor());
                &&& r is Ok <==> p.0 is Ok
                &&& r is Ok ==> r->Ok_0@ == p.0->Ok_0 && final(self).cursor() == p.1
                    && old(self).cursor() < final(self).cursor()
                &&& r is Err ==> r->Err_0 == p.0->Err_0
            }),
        decreases old(self).tokens@.len() - old(self).pos, 0int,
    {
        match self.next_token() {
            Some(Token::OpenParen) => self.parse_list(),
            Some(Token::Integer(value)) => Ok(Expr::Integer(*value)),
            Some(Token::Float(value)) => Ok(Expr::Float(value.clone())),
            Some(Token::String(value)) => Ok(Expr::String(value.clone())),
            Some(Token::Keyword(value)) => Ok(Expr::Keyword(value.clone())),
            Some(Token::Symbol(value)) => Ok(Expr::Symbol(value.clone())),
            Some(Token::Quote) => match self.parse_expr() {
                Ok(e) => Ok(Expr::Quote(Box::new(e))),
                Err(x) => Err(x),
            },
            Some(Token::CloseParen) => Err(ReadError::UnexpectedToken),
            None => Err(ReadError::UnexpectedEndOfInput),
        }
    }

    /// Reads one expression from the current position.
    pub fn parse(&mut self) -> (r: Result<Expr, ReadError>)
        requires
            old(self).wf(),
        ensures
            final(self).wf(),
            final(self).tokens() == old(self).tokens(),
            ({
                let p = read_expr(old(self).tokens(), old(self).cursor());
                &&& r is Ok <==> p.0 is Ok
                &&& r is Ok ==> r->Ok_0@ == p.0->Ok_0 && final(self).cursor() == p.1
                &&& r is Err ==> r->Err_0 == p.0->Err_0
            }),
    {
        self.parse_expr()
    }
}

/// How many tokens of `ts[i..j]` open a list (`open`) or close one (`!open`).
pub open spec fn paren_count(ts: Seq<Lexeme>, i: int, j: int, open: bool) -> nat
    decreases j - i,
{
    if i >= j {
        0
    } else {
        let here: nat = if (open && ts[i] is OpenParen) || (!open && ts[i] is CloseParen) {
            1
        } else {
            0
        };
        here + paren_count(ts, i + 1, j, open)
    }
}

/// How many list nodes the tree `d` holds, itself included.
pub open spec fn list_nodes(d: Datum) -> nat
    decreases d, 0int,
{
    match d {
        Datum::List(v) => 1 + list_nodes_from(v, 0),
        Datum::Quote(b) => list_nodes(*b),
        _ => 0,
    }
}

/// How many list nodes the trees `v[k..]` hold.
pub open spec fn list_nodes_from(v: Seq<Datum>, k: int) -> nat
    decreases v, v.len() - k,
{
    if 0 <= k < v.len() {
        list_nodes(v[k]) + list_nodes_from(v, k + 1)
    } else {
        0
    }
}

proof fn lemma_paren_count_split(ts: Seq<Lexeme>, i: int, k: int, j: int, open: bool)
    requires
        i <= k <= j,
    ensures
        paren_count(ts, i, j, open) == paren_count(ts, i, k, open) + paren_count(ts, k, j, open),
    decreases k - i,
{
    if i < k {
        lemma_paren_count_split(ts, i + 1, k, j, open);
    }
}

proof fn lemma_list_nodes_shift(d: Datum, v: Seq<Datum>, k: int)
    requires
        0 <= k,
    ensures
        list_nodes_from(seq![d] + v, k + 1) == list_nodes_from(v, k),
    decreases v.len() - k,
{
    if k < v.len() {
        assert((seq![d] + v)[k + 1] == v[k]);
        lemma_list_nodes_shift(d, v, k + 1);
    }
}

proof fn lemma_expr_parens(ts: Seq<Lexeme>, i: int)
    requires
        read_expr(ts, i).0 is Ok,
    ensures
        ({
            let (r, j) = read_expr(ts, i);
            &&& 0 <= i < j <= ts.len()
            &&& paren_count(ts, i, j, true) == list_nodes(r->Ok_0)
            &&& paren_count(ts, i, j, false) == list_nodes(r->Ok_0)
        }),
    decreases ts.len() - i, 0int,
{
    let j = read_expr(ts, i).1;
    match ts[i] {
        Lexeme::OpenParen => {
            lemma_list_parens(ts, i + 1);
            assert(paren_count(ts, i, j, true) == 1 + paren_count(ts, i + 1, j, true));
            assert(paren_count(ts, i, j, false) == paren_count(ts, i + 1, j, false));
        },
        Lexeme::Quote => {
            lemma_expr_parens(ts, i + 1);
            assert(paren_count(ts, i, j, true) == paren_count(ts, i + 1, j, true));
            assert(paren_count(ts, i, j, false) == paren_count(ts, i + 1, j, false));
        },
        _ => {
            assert(paren_count(ts, i + 1, j, true) == 0);
            assert(paren_count(ts, i + 1, j, false) == 0);
        },
    }
}

proof fn lemma_list_parens(ts: Seq<Lexeme>, i: int)
    requires
        read_list(ts, i).0 is Ok,
    ensures
        ({
            let (r, j) = read_list(ts, i);
            &&& 0 <= i < j <= ts.len()
            &&& paren_count(ts, i, j, true) == list_nodes_from(r->Ok_0, 0)
            &&& paren_count(ts, i, j, false) == list_nodes_from(r->Ok_0, 0) + 1
        }),
    decreases ts.len() - i, 1int,
{
    let j = read_list(ts, i).1;
    if ts[i] is CloseParen {
        assert(paren_count(ts, i + 1, j, true) == 0);
        assert(paren_count(ts, i + 1, j, false) == 0);
    } else {
        let (r, k) = read_expr(ts, i);
        let d = r->Ok_0;
        lemma_expr_parens(ts, i);
        lemma_list_parens(ts, k);
        let v = read_list(ts, k).0->Ok_0;
        lemma_list_nodes_shift(d, v, 0);
        assert((seq![d] + v)[0] == d);
        lemma_paren_count_split(ts, i, k, j, true);
        lemma_paren_count_split(ts, i, k, j, false);
    }
}

/// Every expression read without error spans as many opening as closing
/// parentheses, and that count is the number of list nodes in its tree.
pub proof fn lemma_parens_count_lists(ts: Seq<Lexeme>, i: int)
    requires
        read_expr(ts, i).0 is Ok,
    ensures
        ({
            let (r, j) = read_expr(ts, i);
            &&& paren_count(ts, i, j, true) == paren_count(ts, i, j, false)
            &&& paren_count(ts, i, j, true) == list_nodes(r->Ok_0)
        }),
{
    lemma_expr_parens(ts, i);
}

/// Two fresh readers over the same tokens read the same tree, or fail with the
/// same error: a reader keeps no state beyond its tokens and its position.
pub proof fn lemma_fresh_readers_agree(a: Parser, b: Parser)
    requires
        a.tokens() == b.tokens(),
        a.cursor() == 0,
        b.cursor() == 0,
    ensures
        read_expr(a.tokens(), a.cursor()).0 == read_expr(b.tokens(), b.cursor()).0,
{
}

} // verus!
