//! The scanner: source text to tokens, one token per request.
use crate::error::ReadError;
use vstd::prelude::*;

verus! {

/// One lexical unit of the source text.
#[derive(Debug, Clone, PartialEq)]
pub enum Token {
    OpenParen,
    CloseParen,
    Integer(i64),
    /// A literal with one `.`, kept as its source text (for example `2.0`);
    /// its value as a 64-bit float is taken by the consumer.
    Float(String),
    String(String),
    /// A keyword, without its leading `:`.
    Keyword(String),
    Symbol(String),
    Quote,
}

/// The mathematical model of a token: text payloads become character sequences.
pub enum Lexeme {
    OpenParen,
    CloseParen,
    Integer(i64),
    Float(Seq<char>),
    Str(Seq<char>),
    Keyword(Seq<char>),
    Symbol(Seq<char>),
    Quote,
}

impl View for Token {
    type V = Lexeme;

    open spec fn view(&self) -> Lexeme {
        match self {
            Token::OpenParen => Lexeme::OpenParen,
            Token::CloseParen => Lexeme::CloseParen,
            Token::Integer(n) => Lexeme::Integer(*n),
            Token::Float(t) => Lexeme::Float(t@),
            Token::String(t) => Lexeme::Str(t@),
            Token::Keyword(t) => Lexeme::Keyword(t@),
            Token::Symbol(t) => Lexeme::Symbol(t@),
            Token::Quote => Lexeme::Quote,
        }
    }
}

/// What one request for a token hands back, as a model.
pub open spec fn scan_view(r: Option<Result<Token, ReadError>>) -> Option<Result<Lexeme, ReadError>> {
    match r {
        None => None,
        Some(Ok(t)) => Some(Ok(t@)),
        Some(Err(e)) => Some(Err(e)),
    }
}

/// Whether `c` has Unicode's White_Space property.
pub uninterp spec fn whitespace_char(c: char) -> bool;

/// Whether `c` is alphabetic or numeric in Unicode's sense.
pub uninterp spec fn alphanumeric_char(c: char) -> bool;

/// Relies on `char::is_whitespace`, which depends on the character alone.
#[verifier::external_body]
fn is_space(c: char) -> (r: bool)
    ensures
        r == whitespace_char(c),
{
    c.is_whitespace()
}

/// Relies on `char::is_alphanumeric`, which depends on the character alone.
#[verifier::external_body]
fn is_alnum(c: char) -> (r: bool)
    ensures
        r == alphanumeric_char(c),
{
    c.is_alphanumeric()
}

/// Relies on `str::chars`: the characters of the text, in order.
#[verifier::external_body]
fn chars_of(s: &str) -> (r: Vec<char>)
    ensures
        r@ == s@,
{
    s.chars().collect()
}

/// Relies on `String`'s `FromIterator<char>`: a string of exactly these characters.
#[verifier::external_body]
fn text_of(cs: &Vec<char>) -> (r: String)
    ensures
        r@ == cs@,
{
    cs.iter().collect()
}

/// A character that may stand in a symbol or keyword.
pub open spec fn symbol_char(c: char) -> bool {
    alphanumeric_char(c) || c == '-' || c == '_' || c == '+' || c == '*' || c == '/' || c == '<'
        || c == '>' || c == '=' || c == '!' || c == '?' || c == '&' || c == ':' || c == '.'
}

pub open spec fn decimal_digit(c: char) -> bool {
    '0' <= c && c <= '9'
}

/// The first position at or after `i` that does not hold whitespace.
pub open spec fn skip_ws_from(s: Seq<char>, i: int) -> int
    decreases s.len() - i,
{
    if 0 <= i < s.len() && whitespace_char(s[i]) {
        skip_ws_from(s, i + 1)
    } else {
        i
    }
}

/// The position just after the first newline at or after `i`, or the end.
pub open spec fn comment_end(s: Seq<char>, i: int) -> int
    decreases s.len() - i,
{
    if i < 0 || i >= s.len() {
        i
    } else if s[i] == '\n' {
        i + 1
    } else {
        comment_end(s, i + 1)
    }
}

/// The body of a string literal that starts at `i` (after its opening quote):
/// its characters with escapes resolved, the position after it, and whether
/// a closing quote was found.
pub open spec fn string_body(s: Seq<char>, i: int) -> (Seq<char>, int, bool)
    decreases s.len() - i,
{
    if i < 0 || i >= s.len() {
        (Seq::empty(), i, false)
    } else if s[i] == '"' {
        (Seq::empty(), i + 1, true)
    } else if s[i] == '\\' {
        if i + 1 < s.len() {
            let r = string_body(s, i + 2);
            (seq![s[i + 1]] + r.0, r.1, r.2)
        } else {
            (Seq::empty(), i + 1, false)
        }
    } else {
        let r = string_body(s, i + 1);
        (seq![s[i]] + r.0, r.1, r.2)
    }
}

/// The end of a numeric literal's run of digits and at most one `.`.
pub open spec fn number_end(s: Seq<char>, i: int, dot: bool) -> int
    decreases s.len() - i,
{
    if 0 <= i < s.len() && ((s[i] == '.' && !dot) || decimal_digit(s[i])) {
        number_end(s, i + 1, dot || s[i] == '.')
    } else {
        i
    }
}

/// The end of the maximal run of symbol characters starting at `i`.
pub open spec fn symbol_end(s: Seq<char>, i: int) -> int
    decreases s.len() - i,
{
    if 0 <= i < s.len() && symbol_char(s[i]) {
        symbol_end(s, i + 1)
    } else {
        i
    }
}

/// The value of a run of decimal digits.
pub open spec fn digits_value(t: Seq<char>) -> int
    decreases t.len(),
{
    if t.len() == 0 {
        0
    } else {
        digits_value(t.drop_last()) * 10 + (t.last() as int - '0' as int)
    }
}

/// The token of the numeric literal `t`.
pub open spec fn number_lexeme(t: Seq<char>) -> Result<Lexeme, ReadError> {
    if t.contains('.') {
        Ok(Lexeme::Float(t))
    } else if digits_value(t) <= i64::MAX {
        Ok(Lexeme::Integer(digits_value(t) as i64))
    } else {
        Err(ReadError::InvalidNumericLiteral)
    }
}

/// The token of the symbol-class text `t`.
pub open spec fn word_lexeme(t: Seq<char>) -> Lexeme {
    if t.len() > 0 && t[0] == ':' {
        Lexeme::Keyword(t.subrange(1, t.len() as int))
    } else {
        Lexeme::Symbol(t)
    }
}

/// One step of the scanner over `s` from position `i`: what the step hands
/// back and where the cursor stands after it.
pub open spec fn scan(s: Seq<char>, i: int) -> (Option<Result<Lexeme, ReadError>>, int)
    decreases s.len() - i,
{
    let j = skip_ws_from(s, i);
    if j < 0 || j >= s.len() {
        (None, j)
    } else {
        let c = s[j];
        if c == '(' {
            (Some(Ok(Lexeme::OpenParen)), j + 1)
        } else if c == ')' {
            (Some(Ok(Lexeme::CloseParen)), j + 1)
        } else if c == '"' {
            let r = string_body(s, j + 1);
            if r.2 {
                (Some(Ok(Lexeme::Str(r.0))), r.1)
            } else {
                (Some(Err(ReadError::UnterminatedString)), r.1)
            }
        } else if '1' <= c && c <= '9' {
            let e = number_end(s, j + 1, false);
            (Some(number_lexeme(s.subrange(j, e))), e)
        } else if c == ';' {
            let k = comment_end(s, j + 1);
            // The comment always moves the cursor forward; the test makes the
            // termination of this recursion evident.
            if 0 <= i < k <= s.len() {
                scan(s, k)
            } else {
                (None, k)
            }
        } else if symbol_char(c) {
            let e = symbol_end(s, j + 1);
            (Some(Ok(word_lexeme(s.subrange(j, e)))), e)
        } else if c == '\'' {
            (Some(Ok(Lexeme::Quote)), j + 1)
        } else {
            (None, j + 1)
        }
    }
}

proof fn lemma_skip_ws_bounds(s: Seq<char>, i: int)
    requires
        0 <= i <= s.len(),
    ensures
        i <= skip_ws_from(s, i) <= s.len(),
    decreases s.len() - i,
{
    if i < s.len() && whitespace_char(s[i]) {
        lemma_skip_ws_bounds(s, i + 1);
    }
}

proof fn lemma_comment_end_bounds(s: Seq<char>, i: int)
    requires
        0 <= i <= s.len(),
    ensures
        i <= comment_end(s, i) <= s.len(),
    decreases s.len() - i,
{
    if i < s.len() && s[i] != '\n' {
        lemma_comment_end_bounds(s, i + 1);
    }
}

/// A line comment yields no token: scanning from before it hands back what
/// scanning from just after its newline (or the end of the text) hands back.
pub proof fn lemma_comment_yields_nothing(s: Seq<char>, i: int)
    requires
        0 <= i <= s.len(),
        skip_ws_from(s, i) < s.len(),
        s[skip_ws_from(s, i)] == ';',
    ensures
        scan(s, i) == scan(s, comment_end(s, skip_ws_from(s, i) + 1)),
{
    lemma_skip_ws_bounds(s, i);
    lemma_comment_end_bounds(s, skip_ws_from(s, i) + 1);
}

/// A scanner over one input text, handing out tokens on demand.
pub struct Tokenizer {
    input: Vec<char>,
    pos: usize,
}

impl Tokenizer {
    /// The text being scanned.
    pub closed spec fn text(&self) -> Seq<char> {
        self.input@
    }

    /// The position of the cursor in the text.
    pub closed spec fn cursor(&self) -> int {
        self.pos as int
    }

    pub closed spec fn wf(&self) -> bool {
        self.pos <= self.input@.len()
    }

    /// A scanner at the start of `input`.
    pub fn new(input: &str) -> (r: Tokenizer)
        ensures
            r.wf(),
            r.text() == input@,
            r.cursor() == 0,
    {
        Tokenizer { input: chars_of(input), pos: 0 }
    }

    /// Moves the cursor past any whitespace.
    pub fn skip_whitespace(&mut self)
        requires
            old(self).wf(),
        ensures
            final(self).wf(),
            final(self).text() == old(self).text(),
            final(self).cursor() == skip_ws_from(old(self).text(), old(self).cursor()),
    {
        while self.pos < self.input.len() && is_space(self.input[self.pos])
            invariant
                self.pos <= self.input@.len(),
                self.input@ == old(self).input@,
                skip_ws_from(self.input@, old(self).pos as int) == skip_ws_from(
                    self.input@,
                    self.pos as int,
                ),
            decreases self.input@.len() - self.pos,
        {
            self.pos = self.pos + 1;
        }
    }

    /// Whether `ch` may stand in a symbol or keyword.
    pub fn is_symbol(&self, ch: char) -> (r: bool)
        ensures
            r == symbol_char(ch),
    {
        is_alnum(ch) || ch == '-' || ch == '_' || ch == '+' || ch == '*' || ch == '/' || ch == '<'
            || ch == '>' || ch == '=' || ch == '!' || ch == '?' || ch == '&' || ch == ':' || ch
            == '.'
    }

    /// Moves the cursor past the rest of a line comment, newline included.
    pub fn read_comment(&mut self)
        requires
            old(self).wf(),
        ensures
            final(self).wf(),
            final(self).text() == old(self).text(),
            final(self).cursor() == comment_end(old(self).text(), old(self).cursor()),
    {
        while self.pos < self.input.len() && self.input[self.pos] != '\n'
            invariant
                self.pos <= self.input@.len(),
                self.input@ == old(self).input@,
                comment_end(self.input@, old(self).pos as int) == comment_end(
                    self.input@,
                    self.pos as int,
                ),
            decreases self.input@.len() - self.pos,
        {
            self.pos = self.pos + 1;
        }
        if self.pos < self.input.len() {
            self.pos = self.pos + 1;
        }
    }

    /// Scans the rest of a string literal whose opening quote was just consumed.
    fn parse_string(&mut self) -> (r: Result<Token, ReadError>)
        requires
            old(self).wf(),
        ensures
            final(self).wf(),
            final(self).text() == old(self).text(),
            ({
                let b = string_body(old(self).text(), old(self).cursor());
                &&& final(self).cursor() == b.1
                &&& b.2 ==> r is Ok && r->Ok_0@ == Lexeme::Str(b.0)
                &&& !b.2 ==> r == Err::<Token, ReadError>(ReadError::UnterminatedString)
            }),
    {
        let ghost s = self.input@;
        let ghost start = self.pos as int;
        let mut acc: Vec<char> = Vec::new();
        loop
            invariant
                self.pos <= s.len(),
                self.input@ == s,
                s == old(self).input@,
                start == old(self).pos,
                ({
                    let b = string_body(s, start);
                    let c = string_body(s, self.pos as int);
                    b == (acc@ + c.0, c.1, c.2)
                }),
            decreases s.len() - self.pos,
        {
            if self.pos >= self.input.len() {
                proof {
                    assert(acc@ + Seq::<char>::empty() =~= acc@);
                }
                return Err(ReadError::UnterminatedString);
            }
            let ch = self.input[self.pos];
            if ch == '"' {
                proof {
                    assert(acc@ + Seq::<char>::empty() =~= acc@);
                }
                self.pos = self.pos + 1;
                let t = text_of(&acc);
                return Ok(Token::String(t));
            } else if ch == '\\' {
                if self.pos + 1 < self.input.len() {
                    let escaped = self.input[self.pos + 1];
                    let ghost c = string_body(s, self.pos + 2);
                    proof {
                        assert(acc@.push(escaped) + c.0 =~= acc@ + (seq![escaped] + c.0));
                    }
                    acc.push(escaped);
                    self.pos = self.pos + 2;
                } else {
                    self.pos = self.pos + 1;
                    return Err(ReadError::UnterminatedString);
                }
            } else {
                let ghost c = string_body(s, self.pos + 1);
                proof {
                    assert(acc@.push(ch) + c.0 =~= acc@ + (seq![ch] + c.0));
                }
                acc.push(ch);
                self.pos = self.pos + 1;
            }
        }
    }

    /// Scans the rest of a numeric literal whose first digit `first` was just consumed.
    fn parse_number(&mut self, first: char) -> (r: Result<Token, ReadError>)
        requires
            old(self).wf(),
            1 <= old(self).cursor(),
            old(self).text()[old(self).cursor() - 1] == first,
            '1' <= first <= '9',
        ensures
            final(self).wf(),
            final(self).text() == old(self).text(),
            ({
                let e = number_end(old(self).text(), old(self).cursor(), false);
                let lit = number_lexeme(old(self).text().subrange(old(self).cursor() - 1, e));
                &&& final(self).cursor() == e
                &&& lit is Ok ==> r is Ok && r->Ok_0@ == lit->Ok_0
                &&& lit is Err ==> r == Err::<Token, ReadError>(lit->Err_0)
            }),
    {
        let ghost s = self.input@;
        let ghost start = self.pos as int;
        let mut digits: Vec<char> = Vec::new();
        digits.push(first);
        let mut has_dot = false;
        let mut value: Option<i64> = Some((first as u32 - '0' as u32) as i64);
        proof {
            assert(digits@.drop_last() =~= Seq::<char>::empty());
            assert(digits_value(Seq::<char>::empty()) == 0);
            assert(digits_value(digits@) == first as int - '0' as int);
            assert(!digits@.contains('.'));
            assert(digits@ =~= s.subrange(start - 1, start));
        }
        let mut stop = false;
        while self.pos < self.input.len() && !stop
            invariant
                stop ==> number_end(s, self.pos as int, has_dot) == self.pos,
                1 <= start <= self.pos <= s.len(),
                self.input@ == s,
                s == old(self).input@,
                start == old(self).pos,
                number_end(s, start, false) == number_end(s, self.pos as int, has_dot),
                digits@ == s.subrange(start - 1, self.pos as int),
                has_dot == digits@.contains('.'),
                forall|k: int| 0 <= k < digits@.len() ==> digits@[k] == '.' || decimal_digit(digits@[k]),
                !has_dot ==> (value is Some ==> value->Some_0 == digits_value(digits@)),
                !has_dot ==> (value is None ==> digits_value(digits@) > i64::MAX),
                !has_dot ==> digits_value(digits@) >= 0,
                value is Some ==> value->Some_0 >= 0,
            decreases s.len() - self.pos, if stop { 0int } else { 1int },
        {
            let ch = self.input[self.pos];
            let ghost before = digits@;
            if ch == '.' && !has_dot {
                has_dot = true;
                digits.push(ch);
                self.pos = self.pos + 1;
                proof {
                    assert(digits@[digits@.len() - 1] == '.');
                    assert(digits@.drop_last() =~= before);
                    assert(digits@ =~= s.subrange(start - 1, self.pos as int));
                }
            } else if '0' <= ch && ch <= '9' {
                let d: i64 = (ch as u32 - '0' as u32) as i64;
                digits.push(ch);
                self.pos = self.pos + 1;
                proof {
                    assert(digits@.drop_last() =~= before);
                    assert(digits@ =~= s.subrange(start - 1, self.pos as int));
                    if !has_dot {
                        assert(!digits@.contains('.')) by {
                            if digits@.contains('.') {
                                let k = choose|k: int| 0 <= k < digits@.len() && digits@[k] == '.';
                                if k < before.len() {
                                    assert(before[k] == '.');
                                }
                            }
                        }
                    } else {
                        let k = choose|k: int| 0 <= k < before.len() && before[k] == '.';
                        assert(digits@[k] == '.');
                    }
                }
                value = match value {
                    Some(v) => {
                        if v <= (i64::MAX - d) / 10 {
                            proof {
                                assert(0 <= v * 10 && v * 10 + d <= i64::MAX) by (nonlinear_arith)
                                    requires
                                        v >= 0,
                                        v <= (i64::MAX - d) / 10,
                                        0 <= d <= 9,
                                ;
                            }
                            Some(v * 10 + d)
                        } else {
                            proof {
                                assert(v * 10 + d > i64::MAX) by (nonlinear_arith)
                                    requires
                                        v > (i64::MAX - d) / 10,
                                        0 <= d <= 9,
                                ;
                            }
                            None
                        }
                    },
                    None => None,
                };
            } else {
                stop = true;
            }
        }
        if has_dot {
            Ok(Token::Float(text_of(&digits)))
        } else {
            match value {
                Some(v) => Ok(Token::Integer(v)),
                None => Err(ReadError::InvalidNumericLiteral),
            }
        }
    }

    /// Scans the rest of a symbol or keyword whose first character `first` was just consumed.
    fn read_symbol(&mut self, first: char) -> (r: Token)
        requires
            old(self).wf(),
            1 <= old(self).cursor(),
            old(self).text()[old(self).cursor() - 1] == first,
        ensures
            final(self).wf(),
            final(self).text() == old(self).text(),
            ({
                let e = symbol_end(old(self).text(), old(self).cursor());
                &&& final(self).cursor() == e
                &&& r@ == word_lexeme(old(self).text().subrange(old(self).cursor() - 1, e))
            }),
    {
        let ghost s = self.input@;
        let ghost start = self.pos as int;
        let mut word: Vec<char> = Vec::new();
        word.push(first);
        while self.pos < self.input.len() && self.is_symbol(self.input[self.pos])
            invariant
                1 <= start <= self.pos <= s.len(),
                self.input@ == s,
                s == old(self).input@,
                start == old(self).pos,
                symbol_end(s, start) == symbol_end(s, self.pos as int),
                word@ == s.subrange(start - 1, self.pos as int),
            decreases s.len() - self.pos,
        {
            word.push(self.input[self.pos]);
            self.pos = self.pos + 1;
            proof {
                assert(word@ =~= s.subrange(start - 1, self.pos as int));
            }
        }
        if first == ':' {
            let mut rest: Vec<char> = Vec::new();
            let mut k: usize = 1;
            while k < word.len()
                invariant
                    1 <= k <= word@.len(),
                    rest@ == word@.subrange(1, k as int),
                decreases word@.len() - k,
            {
                rest.push(word[k]);
                k = k + 1;
                proof {
                    assert(rest@ =~= word@.subrange(1, k as int));
                }
            }
            Token::Keyword(text_of(&rest))
        } else {
            Token::Symbol(text_of(&word))
        }
    }

    /// Hands out the next token, or `None` at the end of the input or at a
    /// character that no rule recognises (that character is consumed).
    pub fn next(&mut self) -> (r: Option<Result<Token, ReadError>>)
        requires
            old(self).wf(),
        ensures
            final(self).wf(),
            final(self).text() == old(self).text(),
            (scan_view(r), final(self).cursor()) == scan(old(self).text(), old(self).cursor()),
    {
        let ghost s = self.input@;
        loop
            invariant
                self.pos <= s.len(),
                self.input@ == s,
                s == old(self).input@,
                scan(s, old(self).pos as int) == scan(s, self.pos as int),
            decreases s.len() - self.pos,
        {
            let ghost p = self.pos as int;
            self.skip_whitespace();
            proof {
                lemma_skip_ws_bounds(s, p);
            }
            if self.pos >= self.input.len() {
                return None;
            }
            let ch = self.input[self.pos];
            self.pos = self.pos + 1;
            if ch == '(' {
                return Some(Ok(Token::OpenParen));
            } else if ch == ')' {
                return Some(Ok(Token::CloseParen));
            } else if ch == '"' {
                return Some(self.parse_string());
            } else if '1' <= ch && ch <= '9' {
                return Some(self.parse_number(ch));
            } else if ch == ';' {
                let ghost q = self.pos as int;
                self.read_comment();
                proof {
                    lemma_comment_end_bounds(s, q);
                    assert(scan(s, p) == scan(s, self.pos as int));
                }
            } else if self.is_symbol(ch) {
                return Some(Ok(self.read_symbol(ch)));
            } else if ch == '\'' {
                return Some(Ok(Token::Quote));
            } else {
                return None;
            }
        }
    }
}

} // verus!
