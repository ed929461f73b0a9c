use vstd::prelude::*;
use vstd::string::StrSliceExecFns;

verus! {

/// The fixed-syntax lexemes of the language, in the order in which the
/// scanner tries them.
#[derive(Clone, Copy, Debug, PartialEq, Eq, Structural)]
pub enum SymbolType {
    Percent,
    Assign,
    Semicolon,
    LParen,
    RParen,
    Read,
    Write,
    While,
    Do,
    Od,
    Cons,
    Hd,
    Tl,
    Nil,
}

/// Number of symbol kinds.
pub const SYMBOL_COUNT: usize = 14;

/// The symbol kind at index `i` of the scanning order.
pub open spec fn kind_at(i: int) -> SymbolType {
    if i <= 0 {
        SymbolType::Percent
    } else if i == 1 {
        SymbolType::Assign
    } else if i == 2 {
        SymbolType::Semicolon
    } else if i == 3 {
        SymbolType::LParen
    } else if i == 4 {
        SymbolType::RParen
    } else if i == 5 {
        SymbolType::Read
    } else if i == 6 {
        SymbolType::Write
    } else if i == 7 {
        SymbolType::While
    } else if i == 8 {
        SymbolType::Do
    } else if i == 9 {
        SymbolType::Od
    } else if i == 10 {
        SymbolType::Cons
    } else if i == 11 {
        SymbolType::Hd
    } else if i == 12 {
        SymbolType::Tl
    } else {
        SymbolType::Nil
    }
}

impl SymbolType {
    /// The source text of this symbol.
    pub open spec fn literal(self) -> Seq<char> {
        match self {
            SymbolType::Percent => seq!['%'],
            SymbolType::Assign => seq![':', '='],
            SymbolType::Semicolon => seq![';'],
            SymbolType::LParen => seq!['('],
            SymbolType::RParen => seq![')'],
            SymbolType::Read => seq!['r', 'e', 'a', 'd'],
            SymbolType::Write => seq!['w', 'r', 'i', 't', 'e'],
            SymbolType::While => seq!['w', 'h', 'i', 'l', 'e'],
            SymbolType::Do => seq!['d', 'o'],
            SymbolType::Od => seq!['o', 'd'],
            SymbolType::Cons => seq!['c', 'o', 'n', 's'],
            SymbolType::Hd => seq!['h', 'd'],
            SymbolType::Tl => seq!['t', 'l'],
            SymbolType::Nil => seq!['n', 'i', 'l'],
        }
    }

    /// The symbol kind at index `i` of the scanning order.
    pub fn at(i: usize) -> (k: SymbolType)
        requires
            i < SYMBOL_COUNT,
        ensures
            k == kind_at(i as int),
    {
        match i {
            0 => SymbolType::Percent,
            1 => SymbolType::Assign,
            2 => SymbolType::Semicolon,
            3 => SymbolType::LParen,
            4 => SymbolType::RParen,
            5 => SymbolType::Read,
            6 => SymbolType::Write,
            7 => SymbolType::While,
            8 => SymbolType::Do,
            9 => SymbolType::Od,
            10 => SymbolType::Cons,
            11 => SymbolType::Hd,
            12 => SymbolType::Tl,
            _ => SymbolType::Nil,
        }
    }

    /// The source text of this symbol.
    pub fn syntax(&self) -> (r: &'static str)
        ensures
            r@ == self.literal(),
    {
        match self {
            SymbolType::Percent => {
                proof { reveal_strlit("%"); }
                "%"
            },
            SymbolType::Assign => {
                proof { reveal_strlit(":="); }
                ":="
            },
            SymbolType::Semicolon => {
                proof { reveal_strlit(";"); }
                ";"
            },
            SymbolType::LParen => {
                proof { reveal_strlit("("); }
                "("
            },
            SymbolType::RParen => {
                proof { reveal_strlit(")"); }
                ")"
            },
            SymbolType::Read => {
                proof { reveal_strlit("read"); }
                "read"
            },
            SymbolType::Write => {
                proof { reveal_strlit("write"); }
                "write"
            },
            SymbolType::While => {
                proof { reveal_strlit("while"); }
                "while"
            },
            SymbolType::Do => {
                proof { reveal_strlit("do"); }
                "do"
            },
            SymbolType::Od => {
                proof { reveal_strlit("od"); }
                "od"
            },
            SymbolType::Cons => {
                proof { reveal_strlit("cons"); }
                "cons"
            },
            SymbolType::Hd => {
                proof { reveal_strlit("hd"); }
                "hd"
            },
            SymbolType::Tl => {
                proof { reveal_strlit("tl"); }
                "tl"
            },
            SymbolType::Nil => {
                proof { reveal_strlit("nil"); }
                "nil"
            },
        }
    }

    /// Length of the source text of this symbol, in characters.
    pub fn len(&self) -> (n: usize)
        ensures
            n == self.literal().len(),
            n >= 1,
    {
        match self {
            SymbolType::Percent | SymbolType::Semicolon | SymbolType::LParen
            | SymbolType::RParen => 1,
            SymbolType::Assign | SymbolType::Do | SymbolType::Od | SymbolType::Hd
            | SymbolType::Tl => 2,
            SymbolType::Nil => 3,
            SymbolType::Read | SymbolType::Cons => 4,
            SymbolType::Write | SymbolType::While => 5,
        }
    }
}

/// Whitespace between tokens: space, tab or newline.
pub open spec fn is_ws(c: char) -> bool {
    c == ' ' || c == '\t' || c == '\n'
}

/// What `char::is_alphanumeric` returns for `c`.
pub uninterp spec fn alphanumeric(c: char) -> bool;

/// Relies on `char::is_alphanumeric`: whether `c` is alphabetic or numeric.
#[verifier::external_body]
fn is_alphanumeric(c: char) -> (r: bool)
    ensures
        r == alphanumeric(c),
{
    c.is_alphanumeric()
}

/// Characters that may make up an identifier.
pub open spec fn is_ident_char(c: char) -> bool {
    alphanumeric(c) || c == '_'
}

/// `lit` occurs in `s` at position `p`.
pub open spec fn starts_with_at(s: Seq<char>, p: int, lit: Seq<char>) -> bool {
    0 <= p && p + lit.len() <= s.len() && forall|j: int|
        0 <= j < lit.len() ==> #[trigger] s[p + j] == lit[j]
}

/// The first symbol kind, from index `i` of the scanning order on, whose
/// literal occurs at `p` and is followed by the end of the text, whitespace,
/// or another symbol that is itself accepted there.
pub open spec fn symbol_from(s: Seq<char>, p: int, i: int) -> Option<SymbolType>
    decreases s.len() - p, SYMBOL_COUNT - i,
{
    if i < 0 || i >= SYMBOL_COUNT || p < 0 || p >= s.len() {
        None
    } else {
        let k = kind_at(i);
        let q = p + k.literal().len();
        if starts_with_at(s, p, k.literal()) && (q >= s.len() || is_ws(s[q]) || symbol_from(
            s,
            q,
            0,
        ) is Some) {
            Some(k)
        } else {
            symbol_from(s, p, i + 1)
        }
    }
}

/// The symbol recognised at position `p` of `s`, if any.
pub open spec fn symbol_at(s: Seq<char>, p: int) -> Option<SymbolType> {
    symbol_from(s, p, 0)
}

/// A token may end at `q`: the text ends there, whitespace follows, or a
/// symbol is recognised there.
pub open spec fn ends_token_at(s: Seq<char>, q: int) -> bool {
    q >= s.len() || is_ws(s[q]) || symbol_at(s, q) is Some
}

/// The literal of `k` occurs at `p` and a token may end right after it.
pub open spec fn accepts(s: Seq<char>, p: int, k: SymbolType) -> bool {
    starts_with_at(s, p, k.literal()) && ends_token_at(s, p + k.literal().len())
}

/// A symbol that is recognised is accepted where it stands.
pub proof fn lemma_symbol_accepted(s: Seq<char>, p: int, i: int)
    ensures
        symbol_from(s, p, i) matches Some(k) ==> accepts(s, p, k),
    decreases SYMBOL_COUNT - i,
{
    if 0 <= i < SYMBOL_COUNT && 0 <= p < s.len() {
        lemma_symbol_accepted(s, p, i + 1);
    }
}

/// Where a kind is accepted, some symbol is recognised.
pub proof fn lemma_accepted_recognised(s: Seq<char>, p: int, i: int, j: int)
    requires
        0 <= i <= j < SYMBOL_COUNT,
        accepts(s, p, kind_at(j)),
    ensures
        symbol_from(s, p, i) is Some,
    decreases j - i,
{
    if i < j {
        lemma_accepted_recognised(s, p, i + 1, j);
    }
}

/// Where an identifier that starts at `p` ends: at the first position that
/// is the end of the text, whitespace, a character that no identifier
/// holds, or the start of a recognised symbol.
pub open spec fn ident_end(s: Seq<char>, p: int) -> int
    decreases s.len() - p,
{
    if p < 0 || p >= s.len() || is_ws(s[p]) || !is_ident_char(s[p]) || symbol_at(s, p) is Some {
        p
    } else {
        ident_end(s, p + 1)
    }
}

/// Whether `lit` occurs in `s` at position `p`.
fn matches_at(s: &Vec<char>, p: usize, lit: &str) -> (r: bool)
    requires
        p <= s@.len(),
    ensures
        r == starts_with_at(s@, p as int, lit@),
{
    let n = lit.unicode_len();
    if n > s.len() - p {
        return false;
    }
    let mut j: usize = 0;
    while j < n
        invariant
            n == lit@.len(),
            p + n <= s.len(),
            j <= n,
            forall|m: int| 0 <= m < j ==> s@[p + m] == lit@[m],
        decreases n - j,
    {
        if s[p + j] != lit.get_char(j) {
            return false;
        }
        j += 1;
    }
    true
}

/// The symbol recognised at position `p` of `s`, if any.
pub fn match_symbol(s: &Vec<char>, p: usize) -> (r: Option<SymbolType>)
    requires
        p <= s@.len(),
    ensures
        r == symbol_at(s@, p as int),
    decreases s@.len() - p,
{
    if p >= s.len() {
        return None;
    }
    let mut i: usize = 0;
    while i < SYMBOL_COUNT
        invariant
            p < s@.len(),
            i <= SYMBOL_COUNT,
            symbol_from(s@, p as int, i as int) == symbol_at(s@, p as int),
        decreases SYMBOL_COUNT - i,
    {
        let k = SymbolType::at(i);
        if matches_at(s, p, k.syntax()) {
            assert(p + k.literal().len() <= s.len());
            let q = p + k.len();
            if q >= s.len() || is_whitespace(s[q]) || match_symbol(s, q).is_some() {
                return Some(k);
            }
        }
        i += 1;
    }
    None
}

/// Whether `c` is whitespace between tokens.
pub fn is_whitespace(c: char) -> (r: bool)
    ensures
        r == is_ws(c),
{
    c == ' ' || c == '\t' || c == '\n'
}

/// Whether `c` may stand in an identifier.
pub fn is_identifier_char(c: char) -> (r: bool)
    ensures
        r == is_ident_char(c),
{
    c == '_' || is_alphanumeric(c)
}

/// Where an identifier that starts at `p` ends.
pub fn match_identifier(s: &Vec<char>, p: usize) -> (e: usize)
    requires
        p <= s@.len(),
    ensures
        e == ident_end(s@, p as int),
        p <= e <= s@.len(),
{
    let mut q = p;
    while q < s.len() && !is_whitespace(s[q]) && is_identifier_char(s[q]) && match_symbol(
        s,
        q,
    ).is_none()
        invariant
            p <= q <= s@.len(),
            ident_end(s@, q as int) == ident_end(s@, p as int),
        decreases s@.len() - q,
    {
        q += 1;
    }
    q
}

/// A token: a fixed-syntax symbol, or an identifier with its text.
#[derive(Debug, PartialEq, Eq)]
pub enum TokenType {
    Symbol(SymbolType),
    Ident(String),
}

/// The mathematical value of a token.
pub ghost enum Token {
    Symbol(SymbolType),
    Ident(Seq<char>),
}

impl View for TokenType {
    type V = Token;

    open spec fn view(&self) -> Token {
        match self {
            TokenType::Symbol(k) => Token::Symbol(*k),
            TokenType::Ident(t) => Token::Ident(t@),
        }
    }
}

/// The token that starts at position `p` of `s`, with the position where it
/// ends: a recognised symbol if there is one, else a non-empty identifier.
pub open spec fn token_at(s: Seq<char>, p: int) -> Option<(Token, int)> {
    match symbol_at(s, p) {
        Some(k) => Some((Token::Symbol(k), p + k.literal().len())),
        None => {
            let e = ident_end(s, p);
            if e > p {
                Some((Token::Ident(s.subrange(p, e)), e))
            } else {
                None
            }
        },
    }
}

/// The characters of `input`, in order.
pub fn chars_of(input: &str) -> (v: Vec<char>)
    ensures
        v@ == input@,
{
    broadcast use vstd::string::axiom_spec_iter;

    let mut v: Vec<char> = Vec::new();
    for c in it: input.chars()
        invariant
            v@ == it.seq().take(it.index() as int),
    {
        v.push(c);
    }
    assert(v@ =~= input@);
    v
}

impl TokenType {
    /// Recognises a symbol at the start of `input`, and returns the rest of
    /// the input with it.
    pub fn parse_symbol(input: &str) -> (r: Option<(&str, TokenType)>)
        ensures
            match symbol_at(input@, 0) {
                Some(k) => r matches Some((rest, t)) && t@ == Token::Symbol(k) && rest@
                    == input@.skip(k.literal().len() as int),
                None => r is None,
            },
    {
        let s = chars_of(input);
        match match_symbol(&s, 0) {
            Some(k) => {
                proof {
                    lemma_symbol_accepted(s@, 0, 0);
                }
                let rest = input.substring_char(k.len(), s.len());
                Some((rest, TokenType::Symbol(k)))
            },
            None => None,
        }
    }

    /// Recognises an identifier at the start of `input`, and returns the rest
    /// of the input with it.
    pub fn parse_ident(input: &str) -> (r: Option<(&str, TokenType)>)
        ensures
            ({
                let e = ident_end(input@, 0);
                if e > 0 {
                    r matches Some((rest, t)) && t@ == Token::Ident(input@.take(e)) && rest@
                        == input@.skip(e)
                } else {
                    r is None
                }
            }),
    {
        let s = chars_of(input);
        let e = match_identifier(&s, 0);
        if e > 0 {
            let text = input.substring_char(0, e).to_owned();
            let rest = input.substring_char(e, s.len());
            Some((rest, TokenType::Ident(text)))
        } else {
            None
        }
    }

    /// Recognises a token at the start of `input`: a symbol where one is
    /// recognised, else an identifier. Returns the rest of the input with it.
    pub fn parse_token(input: &str) -> (r: Option<(&str, TokenType)>)
        ensures
            match token_at(input@, 0) {
                Some((tok, e)) => r matches Some((rest, t)) && t@ == tok && rest@ == input@.skip(e),
                None => r is None,
            },
    {
        match Self::parse_symbol(input) {
            Some(found) => Some(found),
            None => Self::parse_ident(input),
        }
    }
}

} // verus!
