use while_tokenizer::SymbolType::{
    Assign, Cons, Do, Hd, LParen, Nil, Od, Percent, RParen, Read, Semicolon, Tl, While, Write,
};
use while_tokenizer::TokenType::{Ident, Symbol};
use while_tokenizer::Tokenizer;

#[test]
fn main_next_token_test_1() {
    let mut t = Tokenizer::new("%;");
    assert_eq!(Some(Symbol(Percent)), t.next());
    assert_eq!(Some(Symbol(Semicolon)), t.next());
    assert_eq!(None, t.next());
}

#[test]
fn main_next_token_test_2() {
    let mut t = Tokenizer::new("read   X)");
    assert_eq!(Some(Symbol(Read)), t.next());
    assert_eq!(Some(Ident("X".to_string())), t.next());
    assert_eq!(Some(Symbol(RParen)), t.next());
    assert_eq!(None, t.next());
}

#[test]
fn main_next_token_test_3() {
    let mut t = Tokenizer::new(
r#"read X
%
    Y := nil ;
    while X do
        Y := (cons (hd X) Y) ;
        X := (tl X)
    od
%
write Y
"#);
    assert_eq!(Some(Symbol(Read)), t.next());
    assert_eq!(Some(Ident("X".to_string())), t.next());
    assert_eq!(Some(Symbol(Percent)), t.next());

    assert_eq!(Some(Ident("Y".to_string())), t.next());
    assert_eq!(Some(Symbol(Assign)), t.next());
    assert_eq!(Some(Symbol(Nil)), t.next());
    assert_eq!(Some(Symbol(Semicolon)), t.next());

    assert_eq!(Some(Symbol(While)), t.next());
    assert_eq!(Some(Ident("X".to_string())), t.next());
    assert_eq!(Some(Symbol(Do)), t.next());
    assert_eq!(Some(Ident("Y".to_string())), t.next());
    assert_eq!(Some(Symbol(Assign)), t.next());
    assert_eq!(Some(Symbol(LParen)), t.next());
    assert_eq!(Some(Symbol(Cons)), t.next());
    assert_eq!(Some(Symbol(LParen)), t.next());
    assert_eq!(Some(Symbol(Hd)), t.next());
    assert_eq!(Some(Ident("X".to_string())), t.next());
    assert_eq!(Some(Symbol(RParen)), t.next());
    assert_eq!(Some(Ident("Y".to_string())), t.next());
    assert_eq!(Some(Symbol(RParen)), t.next());
    assert_eq!(Some(Symbol(Semicolon)), t.next());
    assert_eq!(Some(Ident("X".to_string())), t.next());
    assert_eq!(Some(Symbol(Assign)), t.next());
    assert_eq!(Some(Symbol(LParen)), t.next());
    assert_eq!(Some(Symbol(Tl)), t.next());
    assert_eq!(Some(Ident("X".to_string())), t.next());
    assert_eq!(Some(Symbol(RParen)), t.next());
    assert_eq!(Some(Symbol(Od)), t.next());

    assert_eq!(Some(Symbol(Percent)), t.next());
    assert_eq!(Some(Symbol(Write)), t.next());
    assert_eq!(Some(Ident("Y".to_string())), t.next());
    assert_eq!(None, t.next());
}

#[test]
fn eat_whitespace_test_1() {
    let mut t = Tokenizer::new(" x");
    assert_eq!(0, t.position());
    t.eat_whitespace();
    assert_eq!(1, t.position());
}

#[test]
fn eat_whitespace_test_2() {
    let mut t = Tokenizer::new("  x");
    assert_eq!(0, t.position());
    t.eat_whitespace();
    assert_eq!(2, t.position());
}

#[test]
fn eat_whitespace_test_3() {
    let mut t = Tokenizer::new("   aoeu");
    assert_eq!(0, t.position());
    t.eat_whitespace();
    assert_eq!(3, t.position());
}

#[test]
fn tokenizer_next_token_test_1() {
    let mut t = Tokenizer::new("% ;");
    assert_eq!(Some(Symbol(Percent)), t.next());
    assert_eq!(Some(Symbol(Semicolon)), t.next());
    assert_eq!(None, t.next());
}

#[test]
fn tokenizer_next_token_test_2() {
    let mut t = Tokenizer::new("read X)");
    assert_eq!(Some(Symbol(Read)), t.next());
    assert_eq!(Some(Ident("X".to_string())), t.next());
    assert_eq!(Some(Symbol(RParen)), t.next());
    assert_eq!(None, t.next());
}

#[test]
fn tokenizer_next_token_test_3() {
    let mut t = Tokenizer::new(
r#"read X
%
    Y := nil ;
    while X do
        Y := (cons (hd X) Y) ;
        X := (tl X)
    od
%
write Y
"#);
    assert_eq!(Some(Symbol(Read)), t.next());
    assert_eq!(Some(Ident("X".to_string())), t.next());
    assert_eq!(Some(Symbol(Percent)), t.next());

    assert_eq!(Some(Ident("Y".to_string())), t.next());
    assert_eq!(Some(Symbol(Assign)), t.next());
    assert_eq!(Some(Symbol(Nil)), t.next());
    assert_eq!(Some(Symbol(Semicolon)), t.next());

    assert_eq!(Some(Symbol(While)), t.next());
    assert_eq!(Some(Ident("X".to_string())), t.next());
    assert_eq!(Some(Symbol(Do)), t.next());
    assert_eq!(Some(Ident("Y".to_string())), t.next());
    assert_eq!(Some(Symbol(Assign)), t.next());
    assert_eq!(Some(Symbol(LParen)), t.next());
    assert_eq!(Some(Symbol(Cons)), t.next());
    assert_eq!(Some(Symbol(LParen)), t.next());
    assert_eq!(Some(Symbol(Hd)), t.next());
    assert_eq!(Some(Ident("X".to_string())), t.next());
    assert_eq!(Some(Symbol(RParen)), t.next());
    assert_eq!(Some(Ident("Y".to_string())), t.next());
    assert_eq!(Some(Symbol(RParen)), t.next());
    assert_eq!(Some(Symbol(Semicolon)), t.next());
    assert_eq!(Some(Ident("X".to_string())), t.next());
    assert_eq!(Some(Symbol(Assign)), t.next());
    assert_eq!(Some(Symbol(LParen)), t.next());
    assert_eq!(Some(Symbol(Tl)), t.next());
    assert_eq!(Some(Ident("X".to_string())), t.next());
    assert_eq!(Some(Symbol(RParen)), t.next());
    assert_eq!(Some(Symbol(Od)), t.next());

    assert_eq!(Some(Symbol(Percent)), t.next());
    assert_eq!(Some(Symbol(Write)), t.next());
    assert_eq!(Some(Ident("Y".to_string())), t.next());
    assert_eq!(None, t.next());
}

fn collect(input: &str) -> (Vec<while_tokenizer::TokenType>, usize) {
    let mut t = Tokenizer::new(input);
    let mut out = Vec::new();
    while let Some(tok) = t.next() {
        out.push(tok);
    }
    (out, t.position())
}

#[test]
fn exhausted_scanner_stays_exhausted() {
    let mut t = Tokenizer::new("X $$$ Y");
    assert_eq!(Some(Ident("X".to_string())), t.next());
    assert_eq!(None, t.next());
    let stuck = t.position();
    assert_eq!(2, stuck);
    for _ in 0..5 {
        assert_eq!(None, t.next());
        assert_eq!(stuck, t.position());
    }
}

#[test]
fn whitespace_separated_words_are_consumed() {
    let input = "read X ; Xread odd\n\t:= nil_2 od\n";
    let (tokens, end) = collect(input);
    assert_eq!(input.len(), end);
    assert_eq!(
        vec![
            Symbol(Read),
            Ident("X".to_string()),
            Symbol(Semicolon),
            Ident("X".to_string()),
            Symbol(Read),
            Ident("odd".to_string()),
            Symbol(Assign),
            Ident("nil_2".to_string()),
            Symbol(Od),
        ],
        tokens
    );
}

#[test]
fn keyword_prefix_is_an_identifier() {
    let (tokens, end) = collect("odd");
    assert_eq!(vec![Ident("odd".to_string())], tokens);
    assert_eq!(3, end);
}

#[test]
fn keyword_before_space_is_a_symbol() {
    let mut t = Tokenizer::new("od ");
    assert_eq!(Some(Symbol(Od)), t.next());
    assert_eq!(None, t.next());
    assert_eq!(3, t.position());
}

#[test]
fn whitespace_is_transparent() {
    for input in ["X)", "X  )", "X\n\t)"] {
        let (tokens, end) = collect(input);
        assert_eq!(vec![Ident("X".to_string()), Symbol(RParen)], tokens);
        assert_eq!(input.len(), end);
    }
}

#[test]
fn empty_input_gives_nothing() {
    let mut t = Tokenizer::new("");
    assert_eq!(None, t.next());
    assert_eq!(0, t.position());
}

#[test]
fn only_whitespace_gives_nothing() {
    let mut t = Tokenizer::new(" \t\n ");
    assert_eq!(None, t.next());
    assert_eq!(4, t.position());
}

#[test]
fn symbols_back_to_back() {
    let (tokens, end) = collect("%;:=()");
    assert_eq!(
        vec![Symbol(Percent), Symbol(Semicolon), Symbol(Assign), Symbol(LParen), Symbol(RParen)],
        tokens
    );
    assert_eq!(6, end);
}

#[test]
fn symbol_followed_by_identifier_is_stuck() {
    let mut t = Tokenizer::new("(X");
    assert_eq!(None, t.next());
    assert_eq!(0, t.position());
}

#[test]
fn carriage_return_is_not_whitespace() {
    let mut t = Tokenizer::new("X\r\nY");
    assert_eq!(Some(Ident("X".to_string())), t.next());
    assert_eq!(None, t.next());
    assert_eq!(1, t.position());
}

#[test]
fn all_keywords_in_sequence() {
    let (tokens, _) = collect("read write while do od cons hd tl nil");
    assert_eq!(
        vec![
            Symbol(Read),
            Symbol(Write),
            Symbol(While),
            Symbol(Do),
            Symbol(Od),
            Symbol(Cons),
            Symbol(Hd),
            Symbol(Tl),
            Symbol(Nil),
        ],
        tokens
    );
}

#[test]
fn position_counts_bytes() {
    let mut t = Tokenizer::new("é ñu := x");
    assert_eq!(Some(Ident("é".to_string())), t.next());
    assert_eq!(2, t.position());
    assert_eq!(Some(Ident("ñu".to_string())), t.next());
    assert_eq!(6, t.position());
    assert_eq!(Some(Symbol(Assign)), t.next());
    assert_eq!(9, t.position());
    assert_eq!(Some(Ident("x".to_string())), t.next());
    assert_eq!(None, t.next());
    assert_eq!(11, t.position());
}
