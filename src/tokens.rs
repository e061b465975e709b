use crate::compile::Source;
use vstd::prelude::*;

verus! {

/// The kind of a token.
#[derive(Debug, PartialEq)]
pub enum TokenType {
    // Punctuation and operators.
    LeftParen,
    RightParen,
    LeftBrace,
    RightBrace,
    Comma,
    Dot,
    Minus,
    Plus,
    Semicolon,
    Slash,
    Star,
    Bang,
    BangEqual,
    Equal,
    EqualEqual,
    Greater,
    GreaterEqual,
    Less,
    LessEqual,
    /// A name.
    Identifier(String),
    /// The text between a pair of double quotes, escapes left as they are.
    Str(String),
    /// A numeral: a run of ASCII digits.
    Number(String),
    // Keywords.
    And,
    Class,
    Else,
    False,
    For,
    Fun,
    If,
    Nil,
    Or,
    Print,
    Return,
    Super,
    This,
    True,
    Var,
    While,
    /// A character that starts no token.
    Error,
}

/// The kind of a token, with the text of a literal as a sequence of characters.
pub enum Kind {
    LeftParen,
    RightParen,
    LeftBrace,
    RightBrace,
    Comma,
    Dot,
    Minus,
    Plus,
    Semicolon,
    Slash,
    Star,
    Bang,
    BangEqual,
    Equal,
    EqualEqual,
    Greater,
    GreaterEqual,
    Less,
    LessEqual,
    Identifier(Seq<char>),
    Str(Seq<char>),
    Number(Seq<char>),
    And,
    Class,
    Else,
    False,
    For,
    Fun,
    If,
    Nil,
    Or,
    Print,
    Return,
    Super,
    This,
    True,
    Var,
    While,
    Error,
}

impl View for TokenType {
    type V = Kind;

    open spec fn view(&self) -> Kind {
        match self {
            TokenType::LeftParen => Kind::LeftParen,
            TokenType::RightParen => Kind::RightParen,
            TokenType::LeftBrace => Kind::LeftBrace,
            TokenType::RightBrace => Kind::RightBrace,
            TokenType::Comma => Kind::Comma,
            TokenType::Dot => Kind::Dot,
            TokenType::Minus => Kind::Minus,
            TokenType::Plus => Kind::Plus,
            TokenType::Semicolon => Kind::Semicolon,
            TokenType::Slash => Kind::Slash,
            TokenType::Star => Kind::Star,
            TokenType::Bang => Kind::Bang,
            TokenType::BangEqual => Kind::BangEqual,
            TokenType::Equal => Kind::Equal,
            TokenType::EqualEqual => Kind::EqualEqual,
            TokenType::Greater => Kind::Greater,
            TokenType::GreaterEqual => Kind::GreaterEqual,
            TokenType::Less => Kind::Less,
            TokenType::LessEqual => Kind::LessEqual,
            TokenType::And => Kind::And,
            TokenType::Class => Kind::Class,
            TokenType::Else => Kind::Else,
            TokenType::False => Kind::False,
            TokenType::For => Kind::For,
            TokenType::Fun => Kind::Fun,
            TokenType::If => Kind::If,
            TokenType::Nil => Kind::Nil,
            TokenType::Or => Kind::Or,
            TokenType::Print => Kind::Print,
            TokenType::Return => Kind::Return,
            TokenType::Super => Kind::Super,
            TokenType::This => Kind::This,
            TokenType::True => Kind::True,
            TokenType::Var => Kind::Var,
            TokenType::While => Kind::While,
            TokenType::Error => Kind::Error,
            TokenType::Identifier(s) => Kind::Identifier(s@),
            TokenType::Str(s) => Kind::Str(s@),
            TokenType::Number(s) => Kind::Number(s@),
        }
    }
}

/// A token with the line it ends on (lines count from 0).
#[derive(Debug, PartialEq)]
pub struct Token {
    pub token_type: TokenType,
    pub line: usize,
}

pub struct TokenView {
    pub kind: Kind,
    pub line: int,
}

impl View for Token {
    type V = TokenView;

    open spec fn view(&self) -> TokenView {
        TokenView { kind: self.token_type@, line: self.line as int }
    }
}

/// How strongly a token of this kind binds as an operator; 0 where it cannot
/// continue an expression.
pub open spec fn binding_power(k: Kind) -> int {
    match k {
        Kind::Bang => 7,
        Kind::Star | Kind::Slash => 6,
        Kind::Plus | Kind::Minus => 5,
        Kind::Greater | Kind::Less | Kind::GreaterEqual | Kind::LessEqual => 4,
        Kind::EqualEqual | Kind::BangEqual => 3,
        Kind::Number(_) | Kind::Nil | Kind::True | Kind::False | Kind::Identifier(_) => 2,
        Kind::LeftParen | Kind::RightParen => 1,
        _ => 0,
    }
}

impl Token {
    pub fn precedence(&self) -> (r: i32)
        ensures
            r == binding_power(self.token_type@),
    {
        match self.token_type {
            TokenType::Bang => 7,
            TokenType::Star | TokenType::Slash => 6,
            TokenType::Plus | TokenType::Minus => 5,
            TokenType::Greater | TokenType::Less | TokenType::GreaterEqual
            | TokenType::LessEqual => 4,
            TokenType::EqualEqual | TokenType::BangEqual => 3,
            TokenType::Number(_) | TokenType::Nil | TokenType::True | TokenType::False
            | TokenType::Identifier(_) => 2,
            TokenType::LeftParen | TokenType::RightParen => 1,
            _ => 0,
        }
    }
}

/// The kind of a word: its keyword, or an identifier.
pub open spec fn word_kind(w: Seq<char>) -> Kind {
    if w =~= seq!['a', 'n', 'd'] {
        Kind::And
    } else if w =~= seq!['c', 'l', 'a', 's', 's'] {
        Kind::Class
    } else if w =~= seq!['e', 'l', 's', 'e'] {
        Kind::Else
    } else if w =~= seq!['f', 'a', 'l', 's', 'e'] {
        Kind::False
    } else if w =~= seq!['f', 'o', 'r'] {
        Kind::For
    } else if w =~= seq!['f', 'u', 'n'] {
        Kind::Fun
    } else if w =~= seq!['i', 'f'] {
        Kind::If
    } else if w =~= seq!['n', 'i', 'l'] {
        Kind::Nil
    } else if w =~= seq!['o', 'r'] {
        Kind::Or
    } else if w =~= seq!['p', 'r', 'i', 'n', 't'] {
        Kind::Print
    } else if w =~= seq!['r', 'e', 't', 'u', 'r', 'n'] {
        Kind::Return
    } else if w =~= seq!['s', 'u', 'p', 'e', 'r'] {
        Kind::Super
    } else if w =~= seq!['t', 'h', 'i', 's'] {
        Kind::This
    } else if w =~= seq!['t', 'r', 'u', 'e'] {
        Kind::True
    } else if w =~= seq!['v', 'a', 'r'] {
        Kind::Var
    } else if w =~= seq!['w', 'h', 'i', 'l', 'e'] {
        Kind::While
    } else {
        Kind::Identifier(w)
    }
}


pub open spec fn is_digit(c: char) -> bool {
    '0' <= c && c <= '9'
}

pub open spec fn is_ascii_letter(c: char) -> bool {
    ('a' <= c && c <= 'z') || ('A' <= c && c <= 'Z')
}

/// Whether a character outside ASCII has Unicode's Alphabetic property.
pub uninterp spec fn unicode_alphabetic(c: char) -> bool;

/// Whether a character outside ASCII is alphabetic or numeric in Unicode's sense.
pub uninterp spec fn unicode_alphanumeric(c: char) -> bool;

/// Whether a character can start a word: among ASCII characters, the letters.
pub open spec fn alphabetic(c: char) -> bool {
    if (c as u32) < 128 {
        is_ascii_letter(c)
    } else {
        unicode_alphabetic(c)
    }
}

/// Whether a character can continue a word: among ASCII characters, the
/// letters and digits.
pub open spec fn alphanumeric(c: char) -> bool {
    if (c as u32) < 128 {
        is_ascii_letter(c) || is_digit(c)
    } else {
        unicode_alphanumeric(c)
    }
}

/// Relies on `char::is_alphabetic`: among ASCII characters exactly the letters
/// have the Alphabetic property.
#[verifier::external_body]
fn is_alphabetic(c: char) -> (r: bool)
    ensures
        (c as u32) < 128 ==> r == is_ascii_letter(c),
        (c as u32) >= 128 ==> r == unicode_alphabetic(c),
{
    c.is_alphabetic()
}

/// Relies on `char::is_alphanumeric` (alphabetic or numeric): among ASCII
/// characters exactly the letters and digits.
#[verifier::external_body]
fn is_alphanumeric(c: char) -> (r: bool)
    ensures
        (c as u32) < 128 ==> r == (is_ascii_letter(c) || is_digit(c)),
        (c as u32) >= 128 ==> r == unicode_alphanumeric(c),
{
    c.is_alphanumeric()
}

/// Relies on `String::push`: appends one character.
#[verifier::external_body]
pub(crate) fn push_char(s: &mut String, c: char)
    ensures
        final(s)@ == old(s)@.push(c),
{
    s.push(c)
}

/// The number of newlines in a text.
pub open spec fn newlines(s: Seq<char>) -> nat
    decreases s.len(),
{
    if s.len() == 0 {
        0
    } else {
        newlines(s.drop_last()) + if s.last() == '\n' { 1nat } else { 0nat }
    }
}

pub proof fn lemma_newlines_bounded(s: Seq<char>)
    ensures
        newlines(s) <= s.len(),
    decreases s.len(),
{
    if s.len() > 0 {
        lemma_newlines_bounded(s.drop_last());
    }
}

/// Where the text of a string literal that starts at `pos` ends: the index of
/// the closing quote, or the end of the text.
pub open spec fn quote_end(cs: Seq<char>, pos: nat) -> nat
    decreases cs.len() - pos,
{
    if pos < cs.len() && cs[pos as int] != '"' {
        quote_end(cs, pos + 1)
    } else {
        pos
    }
}

/// Where the run of ASCII digits that starts at `pos` ends.
pub open spec fn digits_end(cs: Seq<char>, pos: nat) -> nat
    decreases cs.len() - pos,
{
    if pos < cs.len() && is_digit(cs[pos as int]) {
        digits_end(cs, pos + 1)
    } else {
        pos
    }
}

/// Where the run of alphanumeric characters that starts at `pos` ends.
pub open spec fn word_end(cs: Seq<char>, pos: nat) -> nat
    decreases cs.len() - pos,
{
    if pos < cs.len() && alphanumeric(cs[pos as int]) {
        word_end(cs, pos + 1)
    } else {
        pos
    }
}

pub open spec fn blank(c: char) -> bool {
    c == ' ' || c == '\r' || c == '\t'
}

/// Skips blanks, newlines and line comments from `pos`: where the next
/// lexeme starts, and the line there. A comment runs from `//` to the end of
/// its line; every newline passed adds one to the line.
pub open spec fn skip(cs: Seq<char>, pos: nat, line: int, in_comment: bool) -> (nat, int)
    decreases cs.len() - pos,
{
    if pos >= cs.len() {
        (pos, line)
    } else if in_comment {
        if cs[pos as int] == '\n' {
            skip(cs, pos + 1, line + 1, false)
        } else {
            skip(cs, pos + 1, line, true)
        }
    } else if blank(cs[pos as int]) {
        skip(cs, pos + 1, line, false)
    } else if cs[pos as int] == '\n' {
        skip(cs, pos + 1, line + 1, false)
    } else if cs[pos as int] == '/' && pos + 1 < cs.len() && cs[pos + 1int] == '/' {
        skip(cs, pos + 2, line, true)
    } else {
        (pos, line)
    }
}

pub proof fn lemma_skip_forward(cs: Seq<char>, pos: nat, line: int, in_comment: bool)
    ensures
        skip(cs, pos, line, in_comment).0 >= pos,
    decreases cs.len() - pos,
{
    if pos < cs.len() {
        if in_comment {
            if cs[pos as int] == '\n' {
                lemma_skip_forward(cs, pos + 1, line + 1, false);
            } else {
                lemma_skip_forward(cs, pos + 1, line, true);
            }
        } else if blank(cs[pos as int]) {
            lemma_skip_forward(cs, pos + 1, line, false);
        } else if cs[pos as int] == '\n' {
            lemma_skip_forward(cs, pos + 1, line + 1, false);
        } else if cs[pos as int] == '/' && pos + 1 < cs.len() && cs[pos + 1int] == '/' {
            lemma_skip_forward(cs, pos + 2, line, true);
        }
    }
}

/// A one- or two-character operator: the two-character form where the next
/// character is `=`.
pub open spec fn with_equal(cs: Seq<char>, pos: nat, one: Kind, two: Kind) -> (Kind, nat) {
    if pos + 1 < cs.len() && cs[pos + 1int] == '=' {
        (two, pos + 2)
    } else {
        (one, pos + 1)
    }
}

/// The lexeme that starts at `pos`: its kind, where it ends, and the line at
/// its end.
pub open spec fn lexeme(cs: Seq<char>, pos: nat, line: int) -> (Kind, nat, int) {
    let c = cs[pos as int];
    if c == '"' {
        let q = quote_end(cs, pos + 1);
        let end = if q < cs.len() { q + 1 } else { q };
        (Kind::Str(cs.subrange(pos + 1int, q as int)), end, line + newlines(cs.subrange(pos + 1int, q as int)))
    } else if is_digit(c) {
        let e = digits_end(cs, pos + 1);
        (Kind::Number(cs.subrange(pos as int, e as int)), e, line)
    } else if alphabetic(c) {
        let e = word_end(cs, pos + 1);
        (word_kind(cs.subrange(pos as int, e as int)), e, line)
    } else {
        let (k, e) = if c == '!' {
            with_equal(cs, pos, Kind::Bang, Kind::BangEqual)
        } else if c == '=' {
            with_equal(cs, pos, Kind::Equal, Kind::EqualEqual)
        } else if c == '<' {
            with_equal(cs, pos, Kind::Less, Kind::LessEqual)
        } else if c == '>' {
            with_equal(cs, pos, Kind::Greater, Kind::GreaterEqual)
        } else {
            (single(c), pos + 1)
        };
        (k, e, line)
    }
}

/// The kind of a one-character token; `Error` for a character that starts no token.
pub open spec fn single(c: char) -> Kind {
    if c == '(' {
        Kind::LeftParen
    } else if c == ')' {
        Kind::RightParen
    } else if c == '{' {
        Kind::LeftBrace
    } else if c == '}' {
        Kind::RightBrace
    } else if c == ',' {
        Kind::Comma
    } else if c == '.' {
        Kind::Dot
    } else if c == '-' {
        Kind::Minus
    } else if c == '+' {
        Kind::Plus
    } else if c == ';' {
        Kind::Semicolon
    } else if c == '*' {
        Kind::Star
    } else if c == '/' {
        Kind::Slash
    } else {
        Kind::Error
    }
}

/// The next token from `pos` on, where it ends, and the line there; `None`
/// at the end of the text.
pub open spec fn scan(cs: Seq<char>, pos: nat, line: int) -> Option<(TokenView, nat, int)> {
    let (p, l) = skip(cs, pos, line, false);
    if p >= cs.len() {
        None
    } else {
        let (k, e, l2) = lexeme(cs, p, l);
        Some((TokenView { kind: k, line: l2 }, e, l2))
    }
}

/// The tokens of a text from `pos` on.
pub open spec fn tokens_from(cs: Seq<char>, pos: nat, line: int) -> Seq<TokenView>
    decreases cs.len() - pos,
{
    match scan(cs, pos, line) {
        None => Seq::empty(),
        Some((t, e, l)) => if pos < e <= cs.len() {
            seq![t] + tokens_from(cs, e, l)
        } else {
            Seq::empty()
        },
    }
}

/// The tokens of a whole text.
pub open spec fn tokens_of(cs: Seq<char>) -> Seq<TokenView> {
    tokens_from(cs, 0, 0)
}

/// Reads `cs[from..to]` as text.
fn text_of(cs: &Vec<char>, from: usize, to: usize) -> (s: String)
    requires
        from <= to <= cs@.len(),
    ensures
        s@ == cs@.subrange(from as int, to as int),
{
    let mut s = String::new();
    let mut i = from;
    while i < to
        invariant
            from <= i <= to <= cs@.len(),
            s@ == cs@.subrange(from as int, i as int),
        decreases to - i,
    {
        push_char(&mut s, cs[i]);
        i = i + 1;
        assert(s@ =~= cs@.subrange(from as int, i as int));
    }
    s
}

/// The token for the word `cs[from..to]`: a keyword, or an identifier.
fn word_type(cs: &Vec<char>, from: usize, to: usize) -> (r: TokenType)
    requires
        from <= to <= cs@.len(),
    ensures
        r@ == word_kind(cs@.subrange(from as int, to as int)),
{
    let ghost w = cs@.subrange(from as int, to as int);
    let n = to - from;
        if n == 3 && cs[from] == 'a' && cs[from + 1] == 'n' && cs[from + 2] == 'd' {
            assert(w =~= seq!['a', 'n', 'd']);
            return TokenType::And;
        }
        if n == 5 && cs[from] == 'c' && cs[from + 1] == 'l' && cs[from + 2] == 'a' && cs[from + 3] == 's' && cs[from + 4] == 's' {
            assert(w =~= seq!['c', 'l', 'a', 's', 's']);
            return TokenType::Class;
        }
        if n == 4 && cs[from] == 'e' && cs[from + 1] == 'l' && cs[from + 2] == 's' && cs[from + 3] == 'e' {
            assert(w =~= seq!['e', 'l', 's', 'e']);
            return TokenType::Else;
        }
        if n == 5 && cs[from] == 'f' && cs[from + 1] == 'a' && cs[from + 2] == 'l' && cs[from + 3] == 's' && cs[from + 4] == 'e' {
            assert(w =~= seq!['f', 'a', 'l', 's', 'e']);
            return TokenType::False;
        }
        if n == 3 && cs[from] == 'f' && cs[from + 1] == 'o' && cs[from + 2] == 'r' {
            assert(w =~= seq!['f', 'o', 'r']);
            return TokenType::For;
        }
        if n == 3 && cs[from] == 'f' && cs[from + 1] == 'u' && cs[from + 2] == 'n' {
            assert(w =~= seq!['f', 'u', 'n']);
            return TokenType::Fun;
        }
        if n == 2 && cs[from] == 'i' && cs[from + 1] == 'f' {
            assert(w =~= seq!['i', 'f']);
            return TokenType::If;
        }
        if n == 3 && cs[from] == 'n' && cs[from + 1] == 'i' && cs[from + 2] == 'l' {
            assert(w =~= seq!['n', 'i', 'l']);
            return TokenType::Nil;
        }
        if n == 2 && cs[from] == 'o' && cs[from + 1] == 'r' {
            assert(w =~= seq!['o', 'r']);
            return TokenType::Or;
        }
        if n == 5 && cs[from] == 'p' && cs[from + 1] == 'r' && cs[from + 2] == 'i' && cs[from + 3] == 'n' && cs[from + 4] == 't' {
            assert(w =~= seq!['p', 'r', 'i', 'n', 't']);
            return TokenType::Print;
        }
        if n == 6 && cs[from] == 'r' && cs[from + 1] == 'e' && cs[from + 2] == 't' && cs[from + 3] == 'u' && cs[from + 4] == 'r' && cs[from + 5] == 'n' {
            assert(w =~= seq!['r', 'e', 't', 'u', 'r', 'n']);
            return TokenType::Return;
        }
        if n == 5 && cs[from] == 's' && cs[from + 1] == 'u' && cs[from + 2] == 'p' && cs[from + 3] == 'e' && cs[from + 4] == 'r' {
            assert(w =~= seq!['s', 'u', 'p', 'e', 'r']);
            return TokenType::Super;
        }
        if n == 4 && cs[from] == 't' && cs[from + 1] == 'h' && cs[from + 2] == 'i' && cs[from + 3] == 's' {
            assert(w =~= seq!['t', 'h', 'i', 's']);
            return TokenType::This;
        }
        if n == 4 && cs[from] == 't' && cs[from + 1] == 'r' && cs[from + 2] == 'u' && cs[from + 3] == 'e' {
            assert(w =~= seq!['t', 'r', 'u', 'e']);
            return TokenType::True;
        }
        if n == 3 && cs[from] == 'v' && cs[from + 1] == 'a' && cs[from + 2] == 'r' {
            assert(w =~= seq!['v', 'a', 'r']);
            return TokenType::Var;
        }
        if n == 5 && cs[from] == 'w' && cs[from + 1] == 'h' && cs[from + 2] == 'i' && cs[from + 3] == 'l' && cs[from + 4] == 'e' {
            assert(w =~= seq!['w', 'h', 'i', 'l', 'e']);
            return TokenType::While;
        }
    proof {
            assert(!(w =~= seq!['a', 'n', 'd']));
            assert(!(w =~= seq!['c', 'l', 'a', 's', 's']));
            assert(!(w =~= seq!['e', 'l', 's', 'e']));
            assert(!(w =~= seq!['f', 'a', 'l', 's', 'e']));
            assert(!(w =~= seq!['f', 'o', 'r']));
            assert(!(w =~= seq!['f', 'u', 'n']));
            assert(!(w =~= seq!['i', 'f']));
            assert(!(w =~= seq!['n', 'i', 'l']));
            assert(!(w =~= seq!['o', 'r']));
            assert(!(w =~= seq!['p', 'r', 'i', 'n', 't']));
            assert(!(w =~= seq!['r', 'e', 't', 'u', 'r', 'n']));
            assert(!(w =~= seq!['s', 'u', 'p', 'e', 'r']));
            assert(!(w =~= seq!['t', 'h', 'i', 's']));
            assert(!(w =~= seq!['t', 'r', 'u', 'e']));
            assert(!(w =~= seq!['v', 'a', 'r']));
            assert(!(w =~= seq!['w', 'h', 'i', 'l', 'e']));
    }
    TokenType::Identifier(text_of(cs, from, to))
}


/// A scanner over a source text. It produces tokens one at a time, on demand.
pub struct Tokenizer {
    chars: Vec<char>,
    pos: usize,
    line: usize,
}

impl Tokenizer {
    /// The tokens still to come.
    pub closed spec fn remaining(&self) -> Seq<TokenView> {
        tokens_from(self.chars@, self.pos as nat, self.line as int)
    }

    pub closed spec fn wf(&self) -> bool {
        self.pos <= self.chars@.len() && self.line <= self.pos
    }

    /// A scanner at the start of the source, on line 0.
    pub fn new(input: &Source) -> (r: Tokenizer)
        ensures
            r.wf(),
            r.remaining() == tokens_of(input.0@),
    {
        let mut chars: Vec<char> = Vec::new();
        for c in it: input.0.chars()
            invariant
                chars@ == it.history(),
        {
            chars.push(c);
        }
        assert(chars@ =~= input.0@);
        Tokenizer { chars, pos: 0, line: 0 }
    }

    /// Moves past blanks, newlines and comments.
    fn skip_blank(&mut self)
        requires
            old(self).wf(),
        ensures
            final(self).wf(),
            final(self).chars@ == old(self).chars@,
            (final(self).pos as nat, final(self).line as int) == skip(
                old(self).chars@,
                old(self).pos as nat,
                old(self).line as int,
                false,
            ),
    {
        let ghost cs = self.chars@;
        let ghost target = skip(cs, self.pos as nat, self.line as int, false);
        let len = self.chars.len();
        let mut in_comment = false;
        while self.pos < len
            invariant
                self.wf(),
                self.chars@ == cs,
                len == cs.len(),
                skip(cs, self.pos as nat, self.line as int, in_comment) == target,
                cs == old(self).chars@,
                target == skip(old(self).chars@, old(self).pos as nat, old(self).line as int, false),
            decreases len - self.pos,
        {
            let c = self.chars[self.pos];
            if in_comment {
                if c == '\n' {
                    self.line = self.line + 1;
                    in_comment = false;
                }
                self.pos = self.pos + 1;
            } else if c == ' ' || c == '\r' || c == '\t' {
                self.pos = self.pos + 1;
            } else if c == '\n' {
                self.line = self.line + 1;
                self.pos = self.pos + 1;
            } else if c == '/' && self.pos + 1 < len && self.chars[self.pos + 1] == '/' {
                self.pos = self.pos + 2;
                in_comment = true;
            } else {
                return;
            }
        }
    }

    /// The next token, or `None` at the end of the source.
    pub fn next(&mut self) -> (r: Option<Token>)
        requires
            old(self).wf(),
        ensures
            final(self).wf(),
            old(self).remaining().len() == 0 ==> (r is None && final(self).remaining().len() == 0),
            old(self).remaining().len() > 0 ==> (r matches Some(t) && t@ == old(self).remaining()[0]
                && final(self).remaining() == old(self).remaining().drop_first()),
    {
        let ghost cs = self.chars@;
        let ghost p0 = self.pos as nat;
        let ghost l0 = self.line as int;
        self.skip_blank();
        proof {
            lemma_skip_forward(cs, p0, l0, false);
        }
        let len = self.chars.len();
        if self.pos >= len {
            return None;
        }
        let start = self.pos;
        let ghost l1 = self.line as int;
        let c = self.chars[start];
        let token_type = if c == '"' {
            let mut i = start + 1;
            let mut text = String::new();
            let mut line = self.line;
            while i < len && self.chars[i] != '"'
                invariant
                    start < i <= len == cs.len(),
                    self.chars@ == cs,
                    self.line <= start,
                    text@ == cs.subrange(start + 1, i as int),
                    line as int == self.line + newlines(cs.subrange(start + 1, i as int)),
                    quote_end(cs, i as nat) == quote_end(cs, start as nat + 1),
                decreases len - i,
            {
                proof {
                    lemma_newlines_bounded(cs.subrange(start + 1, i as int));
                }
                let ch = self.chars[i];
                push_char(&mut text, ch);
                if ch == '\n' {
                    line = line + 1;
                }
                i = i + 1;
                assert(cs.subrange(start + 1, i as int).drop_last() =~= cs.subrange(start + 1, i - 1));
                assert(text@ =~= cs.subrange(start + 1, i as int));
            }
            proof {
                lemma_newlines_bounded(cs.subrange(start + 1, i as int));
            }
            self.line = line;
            self.pos = if i < len { i + 1 } else { i };
            TokenType::Str(text)
        } else if '0' <= c && c <= '9' {
            let mut i = start + 1;
            while i < len && '0' <= self.chars[i] && self.chars[i] <= '9'
                invariant
                    start < i <= len == cs.len(),
                    self.chars@ == cs,
                    digits_end(cs, i as nat) == digits_end(cs, start as nat + 1),
                decreases len - i,
            {
                i = i + 1;
            }
            self.pos = i;
            TokenType::Number(text_of(&self.chars, start, i))
        } else if is_alphabetic(c) {
            let mut i = start + 1;
            while i < len && is_alphanumeric(self.chars[i])
                invariant
                    start < i <= len == cs.len(),
                    self.chars@ == cs,
                    word_end(cs, i as nat) == word_end(cs, start as nat + 1),
                decreases len - i,
            {
                i = i + 1;
            }
            self.pos = i;
            word_type(&self.chars, start, i)
        } else {
            let eq_next = start + 1 < len && self.chars[start + 1] == '=';
            let (k, width): (TokenType, usize) = if c == '!' {
                if eq_next { (TokenType::BangEqual, 2) } else { (TokenType::Bang, 1) }
            } else if c == '=' {
                if eq_next { (TokenType::EqualEqual, 2) } else { (TokenType::Equal, 1) }
            } else if c == '<' {
                if eq_next { (TokenType::LessEqual, 2) } else { (TokenType::Less, 1) }
            } else if c == '>' {
                if eq_next { (TokenType::GreaterEqual, 2) } else { (TokenType::Greater, 1) }
            } else if c == '(' {
                (TokenType::LeftParen, 1)
            } else if c == ')' {
                (TokenType::RightParen, 1)
            } else if c == '{' {
                (TokenType::LeftBrace, 1)
            } else if c == '}' {
                (TokenType::RightBrace, 1)
            } else if c == ',' {
                (TokenType::Comma, 1)
            } else if c == '.' {
                (TokenType::Dot, 1)
            } else if c == '-' {
                (TokenType::Minus, 1)
            } else if c == '+' {
                (TokenType::Plus, 1)
            } else if c == ';' {
                (TokenType::Semicolon, 1)
            } else if c == '*' {
                (TokenType::Star, 1)
            } else if c == '/' {
                (TokenType::Slash, 1)
            } else {
                (TokenType::Error, 1)
            };
            self.pos = start + width;
            k
        };
        assert((token_type@, self.pos as nat, self.line as int) == lexeme(cs, start as nat, l1));
        Some(Token { token_type, line: self.line })
    }
}

} // verus!
