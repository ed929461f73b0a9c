use vstd::prelude::*;
use vstd::string::StrSliceExecFns;
use crate::token::{
    SymbolType, Token, TokenType, accepts, chars_of, ident_end, is_ident_char, is_whitespace,
    is_ws, kind_at, lemma_accepted_recognised, lemma_symbol_accepted, match_identifier,
    match_symbol, starts_with_at, symbol_at, token_at,
};

verus! {

/// The position of the first character at or after `p` that is not
/// whitespace, or the end of the text.
pub open spec fn skip_ws(s: Seq<char>, p: int) -> int
    decreases s.len() - p,
{
    if 0 <= p < s.len() && is_ws(s[p]) {
        skip_ws(s, p + 1)
    } else {
        p
    }
}

/// One scanning step from cursor `p`: skip whitespace, then produce the
/// token that starts there. Returns the token, if any, and the new cursor.
/// Where no token starts, the cursor stays after the whitespace.
pub open spec fn step(s: Seq<char>, p: int) -> (Option<Token>, int) {
    let q = skip_ws(s, p);
    match token_at(s, q) {
        Some((t, e)) => (Some(t), e),
        None => (None, q),
    }
}

/// The mathematical value of an optional token.
pub open spec fn token_view(r: Option<TokenType>) -> Option<Token> {
    match r {
        Some(t) => Some(t@),
        None => None,
    }
}

/// Number of bytes that UTF-8 takes for `c`.
pub open spec fn utf8_width(c: char) -> nat {
    if (c as u32) < 0x80 {
        1
    } else if (c as u32) < 0x800 {
        2
    } else if (c as u32) < 0x10000 {
        3
    } else {
        4
    }
}

/// Number of bytes that UTF-8 takes for `s`.
pub open spec fn utf8_len(s: Seq<char>) -> nat
    decreases s.len(),
{
    if s.len() == 0 {
        0
    } else {
        utf8_len(s.drop_last()) + utf8_width(s.last())
    }
}

/// Relies on `str::len`: the length of `s` in bytes of its UTF-8 encoding.
#[verifier::external_body]
fn byte_len(s: &str) -> (n: usize)
    ensures
        n == utf8_len(s@),
{
    s.len()
}

/// Number of bytes that UTF-8 takes for `c`.
fn char_width(c: char) -> (n: usize)
    ensures
        n == utf8_width(c),
{
    let v = c as u32;
    if v < 0x80 {
        1
    } else if v < 0x800 {
        2
    } else if v < 0x10000 {
        3
    } else {
        4
    }
}

proof fn lemma_utf8_len_step(s: Seq<char>, i: int)
    requires
        0 <= i < s.len(),
    ensures
        utf8_len(s.take(i + 1)) == utf8_len(s.take(i)) + utf8_width(s[i]),
{
    assert(s.take(i + 1).drop_last() =~= s.take(i));
}

proof fn lemma_utf8_len_mono(s: Seq<char>, i: int, j: int)
    requires
        0 <= i <= j <= s.len(),
    ensures
        utf8_len(s.take(i)) <= utf8_len(s.take(j)),
    decreases j - i,
{
    if i < j {
        lemma_utf8_len_step(s, j - 1);
        lemma_utf8_len_mono(s, i, j - 1);
    }
}

/// A scanner over a source text, with a cursor that only moves forward.
pub struct Tokenizer {
    input: String,
    chars: Vec<char>,
    index: usize,
    offset: usize,
}

impl Tokenizer {
    /// The source text.
    pub closed spec fn text(&self) -> Seq<char> {
        self.chars@
    }

    /// The cursor: how many characters of the text have been consumed.
    pub closed spec fn pos(&self) -> int {
        self.index as int
    }

    /// The cursor as a byte offset into the text.
    pub closed spec fn byte_pos(&self) -> int {
        self.offset as int
    }

    /// The cursor lies within the text, both copies of the text agree, and
    /// the byte offset is the UTF-8 length of what was consumed.
    pub closed spec fn wf(&self) -> bool {
        &&& self.input@ == self.chars@
        &&& self.index <= self.chars@.len()
        &&& self.offset == utf8_len(self.chars@.take(self.index as int))
        &&& utf8_len(self.chars@) <= usize::MAX
    }

    /// Moves the cursor forward to character `e`.
    fn advance_to(&mut self, e: usize)
        requires
            old(self).wf(),
            old(self).pos() <= e <= old(self).text().len(),
        ensures
            final(self).wf(),
            final(self).text() == old(self).text(),
            final(self).pos() == e,
    {
        while self.index < e
            invariant
                self.wf(),
                self.text() == old(self).text(),
                self.index <= e <= self.chars@.len(),
            decreases e - self.index,
        {
            proof {
                lemma_utf8_len_step(self.chars@, self.index as int);
                lemma_utf8_len_mono(self.chars@, self.index + 1, self.chars@.len() as int);
                assert(self.chars@.take(self.chars@.len() as int) =~= self.chars@);
            }
            self.offset = self.offset + char_width(self.chars[self.index]);
            self.index = self.index + 1;
        }
    }

    /// A scanner over `input` with its cursor at the start.
    pub fn new(input: &str) -> (t: Tokenizer)
        ensures
            t.wf(),
            t.text() == input@,
            t.pos() == 0,
            t.byte_pos() == 0,
    {
        // The UTF-8 length of the whole text fits in a usize, and so does
        // every byte offset into it.
        let _total = byte_len(input);
        let t = Tokenizer { input: input.to_owned(), chars: chars_of(input), index: 0, offset: 0 };
        assert(t.chars@.take(0) =~= Seq::<char>::empty());
        t
    }

    /// The cursor as a byte offset into the text.
    pub fn position(&self) -> (r: usize)
        ensures
            r == self.byte_pos(),
    {
        self.offset
    }

    /// Moves the cursor past a run of whitespace.
    pub fn eat_whitespace(&mut self)
        requires
            old(self).wf(),
        ensures
            final(self).wf(),
            final(self).text() == old(self).text(),
            final(self).pos() == skip_ws(old(self).text(), old(self).pos()),
            final(self).byte_pos() == utf8_len(final(self).text().take(final(self).pos())),
    {
        while self.index < self.chars.len() && is_whitespace(self.chars[self.index])
            invariant
                self.wf(),
                self.text() == old(self).text(),
                skip_ws(self.text(), self.pos()) == skip_ws(old(self).text(), old(self).pos()),
            decreases self.chars@.len() - self.index,
        {
            let e = self.index + 1;
            self.advance_to(e);
        }
    }

    /// Produces the next token and moves the cursor past it; returns `None`
    /// once no token can be produced.
    pub fn next(&mut self) -> (r: Option<TokenType>)
        requires
            old(self).wf(),
        ensures
            final(self).wf(),
            final(self).text() == old(self).text(),
            step(old(self).text(), old(self).pos()) == (token_view(r), final(self).pos()),
            final(self).byte_pos() == utf8_len(final(self).text().take(final(self).pos())),
    {
        self.eat_whitespace();
        let p = self.index;
        match match_symbol(&self.chars, p) {
            Some(k) => {
                proof {
                    lemma_symbol_accepted(self.chars@, p as int, 0);
                }
                assert(p + k.literal().len() <= self.chars.len());
                self.advance_to(p + k.len());
                Some(TokenType::Symbol(k))
            },
            None => {
                let e = match_identifier(&self.chars, p);
                if e > p {
                    let text = self.input.as_str().substring_char(p, e).to_owned();
                    self.advance_to(e);
                    Some(TokenType::Ident(text))
                } else {
                    None
                }
            },
        }
    }
}

/// Where the cursor rests once scanning from `p` stops: the cursor after the
/// first step that produces no token.
pub open spec fn scan_end(s: Seq<char>, p: int) -> int
    decreases s.len() - p,
{
    let (t, q) = step(s, p);
    if t is Some && p < q <= s.len() {
        scan_end(s, q)
    } else {
        q
    }
}

/// The end of the run of non-whitespace characters that starts at `p`.
pub open spec fn word_end(s: Seq<char>, p: int) -> int
    decreases s.len() - p,
{
    if 0 <= p < s.len() && !is_ws(s[p]) {
        word_end(s, p + 1)
    } else {
        p
    }
}

/// A run of non-whitespace characters starts at `p`.
pub open spec fn starts_word(s: Seq<char>, p: int) -> bool {
    0 <= p < s.len() && !is_ws(s[p]) && (p == 0 || is_ws(s[p - 1]))
}

/// A word that stands for tokens: the literal of a symbol, or a non-empty
/// run of identifier characters.
pub open spec fn is_valid_word(w: Seq<char>) -> bool {
    (exists|k: SymbolType| w == k.literal()) || (w.len() > 0 && forall|j: int|
        0 <= j < w.len() ==> is_ident_char(#[trigger] w[j]))
}

/// `s` consists of valid words separated by whitespace.
pub open spec fn valid_words(s: Seq<char>) -> bool {
    forall|p: int| #[trigger] starts_word(s, p) ==> is_valid_word(s.subrange(p, word_end(s, p)))
}

proof fn lemma_skip_ws(s: Seq<char>, p: int)
    requires
        0 <= p <= s.len(),
    ensures
        p <= skip_ws(s, p) <= s.len(),
        skip_ws(s, p) == s.len() || !is_ws(s[skip_ws(s, p)]),
        skip_ws(s, p) > p ==> is_ws(s[skip_ws(s, p) - 1]),
    decreases s.len() - p,
{
    if p < s.len() && is_ws(s[p]) {
        lemma_skip_ws(s, p + 1);
    }
}

proof fn lemma_word_end(s: Seq<char>, p: int)
    requires
        0 <= p <= s.len(),
    ensures
        p <= word_end(s, p) <= s.len(),
        word_end(s, p) == s.len() || is_ws(s[word_end(s, p)]),
        forall|j: int| p <= j < word_end(s, p) ==> !is_ws(#[trigger] s[j]),
    decreases s.len() - p,
{
    if p < s.len() && !is_ws(s[p]) {
        lemma_word_end(s, p + 1);
    }
}

proof fn lemma_kind_index(k: SymbolType) -> (j: int)
    ensures
        0 <= j < crate::token::SYMBOL_COUNT,
        kind_at(j) == k,
{
    match k {
        SymbolType::Percent => 0,
        SymbolType::Assign => 1,
        SymbolType::Semicolon => 2,
        SymbolType::LParen => 3,
        SymbolType::RParen => 4,
        SymbolType::Read => 5,
        SymbolType::Write => 6,
        SymbolType::While => 7,
        SymbolType::Do => 8,
        SymbolType::Od => 9,
        SymbolType::Cons => 10,
        SymbolType::Hd => 11,
        SymbolType::Tl => 12,
        SymbolType::Nil => 13,
    }
}

/// Inside a run of identifier characters that ends at `we`, an identifier
/// runs to `we` unless a symbol is recognised before it.
proof fn lemma_ident_end_in_word(s: Seq<char>, a: int, we: int)
    requires
        0 <= a <= we <= s.len(),
        we == s.len() || is_ws(s[we]),
        forall|j: int| a <= j < we ==> is_ident_char(#[trigger] s[j]) && !is_ws(s[j]),
    ensures
        ident_end(s, a) == we || (a <= ident_end(s, a) < we && symbol_at(s, ident_end(s, a))
            is Some),
    decreases we - a,
{
    if a < we && symbol_at(s, a) is None {
        lemma_ident_end_in_word(s, a + 1, we);
    }
}

/// A cursor from which scanning can go on: at the end, at whitespace, at
/// the start of a word, where a symbol is recognised, or inside a run of
/// identifier characters.
spec fn resumable(s: Seq<char>, p: int) -> bool {
    ||| p == s.len()
    ||| is_ws(s[p])
    ||| starts_word(s, p)
    ||| symbol_at(s, p) is Some
    ||| forall|j: int| p <= j < word_end(s, p) ==> is_ident_char(#[trigger] s[j])
}

proof fn lemma_scan_from_resumable(s: Seq<char>, p: int)
    requires
        valid_words(s),
        0 <= p <= s.len(),
        resumable(s, p),
    ensures
        scan_end(s, p) == s.len(),
    decreases s.len() - p,
{
    let q = skip_ws(s, p);
    lemma_skip_ws(s, p);
    if q < s.len() {
        assert(resumable(s, q));
        match symbol_at(s, q) {
            Some(k) => {
                lemma_symbol_accepted(s, q, 0);
                let e = q + k.literal().len();
                assert(resumable(s, e));
                lemma_scan_from_resumable(s, e);
            },
            None => {
                let we = word_end(s, q);
                lemma_word_end(s, q);
                if starts_word(s, q) {
                    let w = s.subrange(q, we);
                    if exists|k: SymbolType| w == k.literal() {
                        let k = choose|k: SymbolType| w == k.literal();
                        assert forall|j: int| 0 <= j < k.literal().len() implies #[trigger] s[q + j]
                            == k.literal()[j] by {
                            assert(w[j] == s[q + j]);
                        }
                        assert(starts_with_at(s, q, k.literal()));
                        assert(accepts(s, q, k));
                        let i = lemma_kind_index(k);
                        lemma_accepted_recognised(s, q, 0, i);
                        assert(false);
                    }
                    assert forall|j: int| q <= j < we implies is_ident_char(#[trigger] s[j]) by {
                        assert(w[j - q] == s[j]);
                    }
                }
                lemma_ident_end_in_word(s, q, we);
                let e = ident_end(s, q);
                assert(e > q);
                if e < we {
                    assert(resumable(s, e));
                }
                lemma_scan_from_resumable(s, e);
            },
        }
    }
}

/// Once a step produces no token, the next step produces none either and
/// leaves the cursor where it is: an exhausted scanner stays exhausted.
pub proof fn lemma_exhaustion_is_final(s: Seq<char>, p: int)
    requires
        0 <= p <= s.len(),
        step(s, p).0 is None,
    ensures
        step(s, step(s, p).1) == step(s, p),
{
    lemma_skip_ws(s, p);
}

/// On a text made of valid words separated by whitespace, scanning from the
/// start consumes the whole text, and the step at its end produces nothing.
pub proof fn lemma_valid_words_consumed(s: Seq<char>)
    requires
        valid_words(s),
    ensures
        scan_end(s, 0) == s.len(),
        step(s, s.len() as int) == (None::<Token>, s.len() as int),
{
    if s.len() > 0 && !is_ws(s[0]) {
        assert(starts_word(s, 0));
    }
    lemma_scan_from_resumable(s, 0);
    lemma_skip_ws(s, s.len() as int);
}

} // verus!
