//! Source characters to tokens: `lex` states it, `tokenize` computes it.

use vstd::prelude::*;

verus! {

/// A token; names and literals are given by their character range in the
/// source. A number's fraction digits, if any, are `whole_end + 1 .. end`.
#[derive(Debug, Copy, Clone, PartialEq, Eq, Structural)]
pub enum Token {
    Num { start: usize, whole_end: usize, end: usize },
    Ident { start: usize, end: usize },
    True,
    False,
    Let,
    Global,
    Fn,
    If,
    Then,
    Else,
    While,
    Return,
    LParen,
    RParen,
    LBrace,
    RBrace,
    Comma,
    Semi,
    Assign,
    Plus,
    Minus,
    Star,
    Slash,
    Percent,
    Caret,
    EqEq,
    NotEq,
    Lt,
    Le,
    Gt,
    Ge,
    AndAnd,
    OrOr,
    Bang,
}

pub open spec fn is_digit(c: char) -> bool {
    '0' <= c && c <= '9'
}

pub open spec fn is_ident_start(c: char) -> bool {
    ('a' <= c && c <= 'z') || ('A' <= c && c <= 'Z') || c == '_'
}

pub open spec fn is_ident_char(c: char) -> bool {
    is_ident_start(c) || is_digit(c)
}

pub open spec fn is_space(c: char) -> bool {
    c == ' ' || c == '\t' || c == '\n' || c == '\r'
}

/// Where skipping whitespace and comments stands: in code, in a line comment
/// (`#` or `//`, up to the end of the line) or in a block comment (`/* */`).
#[derive(Copy, Clone, PartialEq, Eq, Structural)]
pub enum Trivia {
    Code,
    Line,
    Block,
}

/// The first position from `i` that starts a token, or the end; `None` when a
/// block comment is not closed.
pub open spec fn skip_trivia(cs: Seq<char>, i: int, mode: Trivia) -> Option<int>
    decreases cs.len() - i,
{
    if i < 0 || i >= cs.len() {
        if mode == Trivia::Block {
            None
        } else {
            Some(i)
        }
    } else {
        match mode {
            Trivia::Code => if is_space(cs[i]) {
                skip_trivia(cs, i + 1, Trivia::Code)
            } else if cs[i] == '#' {
                skip_trivia(cs, i + 1, Trivia::Line)
            } else if cs[i] == '/' && i + 1 < cs.len() && cs[i + 1] == '/' {
                skip_trivia(cs, i + 2, Trivia::Line)
            } else if cs[i] == '/' && i + 1 < cs.len() && cs[i + 1] == '*' {
                skip_trivia(cs, i + 2, Trivia::Block)
            } else {
                Some(i)
            },
            Trivia::Line => if cs[i] == '\n' {
                skip_trivia(cs, i + 1, Trivia::Code)
            } else {
                skip_trivia(cs, i + 1, Trivia::Line)
            },
            Trivia::Block => if cs[i] == '*' && i + 1 < cs.len() && cs[i + 1] == '/' {
                skip_trivia(cs, i + 2, Trivia::Code)
            } else {
                skip_trivia(cs, i + 1, Trivia::Block)
            },
        }
    }
}

/// The end of the run of digits starting at `i`.
pub open spec fn digits_end(cs: Seq<char>, i: int) -> int
    decreases cs.len() - i,
{
    if 0 <= i < cs.len() && is_digit(cs[i]) {
        digits_end(cs, i + 1)
    } else {
        i
    }
}

/// The end of the run of identifier characters starting at `i`.
pub open spec fn ident_end(cs: Seq<char>, i: int) -> int
    decreases cs.len() - i,
{
    if 0 <= i < cs.len() && is_ident_char(cs[i]) {
        ident_end(cs, i + 1)
    } else {
        i
    }
}

pub open spec fn keyword(w: Seq<char>) -> Option<Token> {
    if w == seq!['t', 'r', 'u', 'e'] {
        Some(Token::True)
    } else if w == seq!['f', 'a', 'l', 's', 'e'] {
        Some(Token::False)
    } else if w == seq!['l', 'e', 't'] {
        Some(Token::Let)
    } else if w == seq!['g', 'l', 'o', 'b', 'a', 'l'] {
        Some(Token::Global)
    } else if w == seq!['f', 'n'] {
        Some(Token::Fn)
    } else if w == seq!['i', 'f'] {
        Some(Token::If)
    } else if w == seq!['t', 'h', 'e', 'n'] {
        Some(Token::Then)
    } else if w == seq!['e', 'l', 's', 'e'] {
        Some(Token::Else)
    } else if w == seq!['w', 'h', 'i', 'l', 'e'] {
        Some(Token::While)
    } else if w == seq!['r', 'e', 't', 'u', 'r', 'n'] {
        Some(Token::Return)
    } else {
        None
    }
}

/// Operators of two characters, tried before those of one.
pub open spec fn pair_token(a: char, b: char) -> Option<Token> {
    if a == '=' && b == '=' {
        Some(Token::EqEq)
    } else if a == '!' && b == '=' {
        Some(Token::NotEq)
    } else if a == '<' && b == '=' {
        Some(Token::Le)
    } else if a == '>' && b == '=' {
        Some(Token::Ge)
    } else if a == '&' && b == '&' {
        Some(Token::AndAnd)
    } else if a == '|' && b == '|' {
        Some(Token::OrOr)
    } else {
        None
    }
}

pub open spec fn single_token(c: char) -> Option<Token> {
    if c == '(' {
        Some(Token::LParen)
    } else if c == ')' {
        Some(Token::RParen)
    } else if c == '{' {
        Some(Token::LBrace)
    } else if c == '}' {
        Some(Token::RBrace)
    } else if c == ',' {
        Some(Token::Comma)
    } else if c == ';' {
        Some(Token::Semi)
    } else if c == '=' {
        Some(Token::Assign)
    } else if c == '+' {
        Some(Token::Plus)
    } else if c == '-' {
        Some(Token::Minus)
    } else if c == '*' {
        Some(Token::Star)
    } else if c == '/' {
        Some(Token::Slash)
    } else if c == '%' {
        Some(Token::Percent)
    } else if c == '^' {
        Some(Token::Caret)
    } else if c == '<' {
        Some(Token::Lt)
    } else if c == '>' {
        Some(Token::Gt)
    } else if c == '!' {
        Some(Token::Bang)
    } else {
        None
    }
}

/// The token that starts at `i` (which is in range) and where it ends.
pub open spec fn token_at(cs: Seq<char>, i: int) -> Option<(Token, int)> {
    if is_digit(cs[i]) {
        let w = digits_end(cs, i);
        if w + 1 < cs.len() && cs[w] == '.' && is_digit(cs[w + 1]) {
            let e = digits_end(cs, w + 1);
            Some((Token::Num { start: i as usize, whole_end: w as usize, end: e as usize }, e))
        } else {
            Some((Token::Num { start: i as usize, whole_end: w as usize, end: w as usize }, w))
        }
    } else if is_ident_start(cs[i]) {
        let e = ident_end(cs, i);
        match keyword(cs.subrange(i, e)) {
            Some(k) => Some((k, e)),
            None => Some((Token::Ident { start: i as usize, end: e as usize }, e)),
        }
    } else if i + 1 < cs.len() && pair_token(cs[i], cs[i + 1]) is Some {
        Some((pair_token(cs[i], cs[i + 1])->0, i + 2))
    } else {
        match single_token(cs[i]) {
            Some(t) => Some((t, i + 1)),
            None => None,
        }
    }
}

/// A token's character ranges lie in `cs`, and a number's ranges hold digits.
pub open spec fn token_ok(cs: Seq<char>, t: Token) -> bool {
    match t {
        Token::Num { start, whole_end, end } => {
            &&& start < whole_end <= end <= cs.len()
            &&& forall|k: int| start <= k < whole_end ==> is_digit(#[trigger] cs[k])
            &&& end > whole_end ==> whole_end + 1 < end
            &&& forall|k: int| whole_end + 1 <= k < end ==> is_digit(#[trigger] cs[k])
        },
        Token::Ident { start, end } => start <= end <= cs.len(),
        _ => true,
    }
}

/// The tokens of `cs` from position `i` on; `None` if some character starts
/// no token or a block comment is left open.
pub open spec fn lex_from(cs: Seq<char>, i: int) -> Option<Seq<Token>>
    decreases cs.len() - i,
{
    match skip_trivia(cs, i, Trivia::Code) {
        None => None,
        Some(j) => if j < i || j >= cs.len() {
            Some(Seq::empty())
        } else {
            match token_at(cs, j) {
                None => None,
                Some((t, k)) => if k <= i || k > cs.len() {
                    None
                } else {
                    match lex_from(cs, k) {
                        None => None,
                        Some(ts) => Some(seq![t] + ts),
                    }
                },
            }
        },
    }
}

pub open spec fn lex(cs: Seq<char>) -> Option<Seq<Token>> {
    lex_from(cs, 0)
}


/// The characters of `s`, in order.
pub fn source_chars(s: &str) -> (r: Vec<char>)
    ensures
        r@ == s@,
{
    let n = s.unicode_len();
    let mut r: Vec<char> = Vec::new();
    let mut i: usize = 0;
    while i < n
        invariant
            n == s@.len(),
            i <= n,
            r@ == s@.subrange(0, i as int),
        decreases n - i,
    {
        r.push(s.get_char(i));
        i = i + 1;
        assert(r@ =~= s@.subrange(0, i as int));
    }
    assert(r@ =~= s@);
    r
}

fn is_digit_char(c: char) -> (r: bool)
    ensures
        r == is_digit(c),
{
    '0' <= c && c <= '9'
}

fn is_ident_start_char(c: char) -> (r: bool)
    ensures
        r == is_ident_start(c),
{
    ('a' <= c && c <= 'z') || ('A' <= c && c <= 'Z') || c == '_'
}

fn is_ident_char_exec(c: char) -> (r: bool)
    ensures
        r == is_ident_char(c),
{
    is_ident_start_char(c) || is_digit_char(c)
}

fn skip_trivia_exec(cs: &Vec<char>, start: usize) -> (r: Option<usize>)
    requires
        start <= cs@.len(),
    ensures
        skip_trivia(cs@, start as int, Trivia::Code) == match r {
            Some(j) => Some(j as int),
            None => None::<int>,
        },
        match r {
            Some(j) => start <= j <= cs@.len(),
            None => true,
        },
{
    let mut i = start;
    let mut mode = Trivia::Code;
    while i < cs.len()
        invariant
            start <= i <= cs@.len(),
            skip_trivia(cs@, start as int, Trivia::Code) == skip_trivia(cs@, i as int, mode),
        decreases cs@.len() - i,
    {
        let c = cs[i];
        match mode {
            Trivia::Code => {
                if c == ' ' || c == '\t' || c == '\n' || c == '\r' {
                    i = i + 1;
                } else if c == '#' {
                    i = i + 1;
                    mode = Trivia::Line;
                } else if c == '/' && i + 1 < cs.len() && cs[i + 1] == '/' {
                    i = i + 2;
                    mode = Trivia::Line;
                } else if c == '/' && i + 1 < cs.len() && cs[i + 1] == '*' {
                    i = i + 2;
                    mode = Trivia::Block;
                } else {
                    return Some(i);
                }
            },
            Trivia::Line => {
                if c == '\n' {
                    mode = Trivia::Code;
                }
                i = i + 1;
            },
            Trivia::Block => {
                if c == '*' && i + 1 < cs.len() && cs[i + 1] == '/' {
                    i = i + 2;
                    mode = Trivia::Code;
                } else {
                    i = i + 1;
                }
            },
        }
    }
    if mode == Trivia::Block {
        None
    } else {
        Some(i)
    }
}

fn digits_end_exec(cs: &Vec<char>, start: usize) -> (r: usize)
    requires
        start <= cs@.len(),
    ensures
        r == digits_end(cs@, start as int),
        start <= r <= cs@.len(),
        forall|k: int| start <= k < r ==> is_digit(#[trigger] cs@[k]),
        r < cs@.len() ==> !is_digit(cs@[r as int]),
{
    let mut i = start;
    while i < cs.len() && is_digit_char(cs[i])
        invariant
            start <= i <= cs@.len(),
            digits_end(cs@, start as int) == digits_end(cs@, i as int),
            forall|k: int| start <= k < i ==> is_digit(#[trigger] cs@[k]),
        decreases cs@.len() - i,
    {
        i = i + 1;
    }
    i
}

fn ident_end_exec(cs: &Vec<char>, start: usize) -> (r: usize)
    requires
        start <= cs@.len(),
    ensures
        r == ident_end(cs@, start as int),
        start <= r <= cs@.len(),
        r < cs@.len() ==> !is_ident_char(cs@[r as int]),
{
    let mut i = start;
    while i < cs.len() && is_ident_char_exec(cs[i])
        invariant
            start <= i <= cs@.len(),
            ident_end(cs@, start as int) == ident_end(cs@, i as int),
        decreases cs@.len() - i,
    {
        i = i + 1;
    }
    i
}

fn word_is(cs: &Vec<char>, i: usize, e: usize, w: &[char]) -> (r: bool)
    requires
        i <= e <= cs@.len(),
    ensures
        r == (cs@.subrange(i as int, e as int) == w@),
{
    if e - i != w.len() {
        return false;
    }
    let mut k: usize = 0;
    while k < w.len()
        invariant
            e - i == w@.len(),
            i <= e <= cs@.len(),
            k <= w@.len(),
            forall|m: int| 0 <= m < k ==> cs@[i + m] == w@[m],
        decreases w@.len() - k,
    {
        if cs[i + k] != w[k] {
            assert(cs@.subrange(i as int, e as int)[k as int] != w@[k as int]);
            return false;
        }
        k = k + 1;
    }
    assert(cs@.subrange(i as int, e as int) =~= w@);
    true
}

fn keyword_of(cs: &Vec<char>, i: usize, e: usize) -> (r: Option<Token>)
    requires
        i <= e <= cs@.len(),
    ensures
        r == keyword(cs@.subrange(i as int, e as int)),
{
    let t = ['t', 'r', 'u', 'e'];
    assert(t@ =~= seq!['t', 'r', 'u', 'e']);
    let f = ['f', 'a', 'l', 's', 'e'];
    assert(f@ =~= seq!['f', 'a', 'l', 's', 'e']);
    let l = ['l', 'e', 't'];
    assert(l@ =~= seq!['l', 'e', 't']);
    let g = ['g', 'l', 'o', 'b', 'a', 'l'];
    assert(g@ =~= seq!['g', 'l', 'o', 'b', 'a', 'l']);
    let fun = ['f', 'n'];
    assert(fun@ =~= seq!['f', 'n']);
    let cond = ['i', 'f'];
    assert(cond@ =~= seq!['i', 'f']);
    let th = ['t', 'h', 'e', 'n'];
    assert(th@ =~= seq!['t', 'h', 'e', 'n']);
    let el = ['e', 'l', 's', 'e'];
    assert(el@ =~= seq!['e', 'l', 's', 'e']);
    let wh = ['w', 'h', 'i', 'l', 'e'];
    assert(wh@ =~= seq!['w', 'h', 'i', 'l', 'e']);
    let re = ['r', 'e', 't', 'u', 'r', 'n'];
    assert(re@ =~= seq!['r', 'e', 't', 'u', 'r', 'n']);
    if word_is(cs, i, e, &t) {
        Some(Token::True)
    } else if word_is(cs, i, e, &f) {
        Some(Token::False)
    } else if word_is(cs, i, e, &l) {
        Some(Token::Let)
    } else if word_is(cs, i, e, &g) {
        Some(Token::Global)
    } else if word_is(cs, i, e, &fun) {
        Some(Token::Fn)
    } else if word_is(cs, i, e, &cond) {
        Some(Token::If)
    } else if word_is(cs, i, e, &th) {
        Some(Token::Then)
    } else if word_is(cs, i, e, &el) {
        Some(Token::Else)
    } else if word_is(cs, i, e, &wh) {
        Some(Token::While)
    } else if word_is(cs, i, e, &re) {
        Some(Token::Return)
    } else {
        None
    }
}

fn pair_token_of(a: char, b: char) -> (r: Option<Token>)
    ensures
        r == pair_token(a, b),
{
    if a == '=' && b == '=' {
        Some(Token::EqEq)
    } else if a == '!' && b == '=' {
        Some(Token::NotEq)
    } else if a == '<' && b == '=' {
        Some(Token::Le)
    } else if a == '>' && b == '=' {
        Some(Token::Ge)
    } else if a == '&' && b == '&' {
        Some(Token::AndAnd)
    } else if a == '|' && b == '|' {
        Some(Token::OrOr)
    } else {
        None
    }
}

fn single_token_of(c: char) -> (r: Option<Token>)
    ensures
        r == single_token(c),
{
    if c == '(' {
        Some(Token::LParen)
    } else if c == ')' {
        Some(Token::RParen)
    } else if c == '{' {
        Some(Token::LBrace)
    } else if c == '}' {
        Some(Token::RBrace)
    } else if c == ',' {
        Some(Token::Comma)
    } else if c == ';' {
        Some(Token::Semi)
    } else if c == '=' {
        Some(Token::Assign)
    } else if c == '+' {
        Some(Token::Plus)
    } else if c == '-' {
        Some(Token::Minus)
    } else if c == '*' {
        Some(Token::Star)
    } else if c == '/' {
        Some(Token::Slash)
    } else if c == '%' {
        Some(Token::Percent)
    } else if c == '^' {
        Some(Token::Caret)
    } else if c == '<' {
        Some(Token::Lt)
    } else if c == '>' {
        Some(Token::Gt)
    } else if c == '!' {
        Some(Token::Bang)
    } else {
        None
    }
}

fn token_at_exec(cs: &Vec<char>, i: usize) -> (r: Option<(Token, usize)>)
    requires
        i < cs@.len(),
    ensures
        token_at(cs@, i as int) == match r {
            Some((t, k)) => Some((t, k as int)),
            None => None::<(Token, int)>,
        },
        match r {
            Some((t, k)) => token_ok(cs@, t) && i < k <= cs@.len(),
            None => true,
        },
{
    if is_digit_char(cs[i]) {
        let w = digits_end_exec(cs, i);
        if cs.len() - w > 1 && cs[w] == '.' && is_digit_char(cs[w + 1]) {
            let e = digits_end_exec(cs, w + 1);
            Some((Token::Num { start: i, whole_end: w, end: e }, e))
        } else {
            Some((Token::Num { start: i, whole_end: w, end: w }, w))
        }
    } else if is_ident_start_char(cs[i]) {
        let e = ident_end_exec(cs, i);
        match keyword_of(cs, i, e) {
            Some(k) => Some((k, e)),
            None => Some((Token::Ident { start: i, end: e }, e)),
        }
    } else if cs.len() - i > 1 && pair_token_of(cs[i], cs[i + 1]).is_some() {
        match pair_token_of(cs[i], cs[i + 1]) {
            Some(t) => Some((t, i + 2)),
            None => None,
        }
    } else {
        match single_token_of(cs[i]) {
            Some(t) => Some((t, i + 1)),
            None => None,
        }
    }
}

/// Splits `cs` into tokens, with the position each starts at. On failure,
/// the position of the character that starts no token, or the end of the
/// input for an open block comment.
pub fn tokenize(cs: &Vec<char>) -> (r: Result<(Vec<Token>, Vec<usize>), usize>)
    ensures
        match r {
            Ok((ts, starts)) => {
                &&& lex(cs@) == Some(ts@)
                &&& starts@.len() == ts@.len()
                &&& forall|k: int| 0 <= k < ts@.len() ==> token_ok(cs@, #[trigger] ts@[k])
                &&& forall|k: int| 0 <= k < starts@.len() ==> #[trigger] starts@[k] <= cs@.len()
            },
            Err(p) => lex(cs@) is None && p <= cs@.len(),
        },
{
    let mut out: Vec<Token> = Vec::new();
    let mut starts: Vec<usize> = Vec::new();
    let mut i: usize = 0;
    loop
        invariant
            i <= cs@.len(),
            lex(cs@) == match lex_from(cs@, i as int) {
                Some(ts) => Some(out@ + ts),
                None => None::<Seq<Token>>,
            },
            starts@.len() == out@.len(),
            forall|k: int| 0 <= k < out@.len() ==> token_ok(cs@, #[trigger] out@[k]),
            forall|k: int| 0 <= k < starts@.len() ==> #[trigger] starts@[k] <= cs@.len(),
        decreases cs@.len() - i,
    {
        match skip_trivia_exec(cs, i) {
            None => return Err(cs.len()),
            Some(j) => {
                if j >= cs.len() {
                    proof {
                        assert(out@ + Seq::<Token>::empty() =~= out@);
                    }
                    return Ok((out, starts));
                }
                match token_at_exec(cs, j) {
                    None => return Err(j),
                    Some((t, k)) => {
                        if k <= i || k > cs.len() {
                            return Err(j);
                        }
                        proof {
                            match lex_from(cs@, k as int) {
                                Some(ts) => {
                                    assert(out@.push(t) + ts =~= out@ + (seq![t] + ts));
                                },
                                None => {},
                            }
                        }
                        out.push(t);
                        starts.push(j);
                        i = k;
                    },
                }
            },
        }
    }
}

} // verus!
