use isla_footprint::{Keyword, Lexer, Tok};

fn table() -> Vec<Keyword> {
    vec![
        Keyword::new(b"::<".to_vec(), Tok::TurboFish),
        Keyword::new(b"->".to_vec(), Tok::Arrow),
        Keyword::new(b"(".to_vec(), Tok::Lparen),
        Keyword::new(b")".to_vec(), Tok::Rparen),
        Keyword::new(b"jump".to_vec(), Tok::Jump),
        Keyword::new(b"goto".to_vec(), Tok::Goto),
        Keyword::new(b"end".to_vec(), Tok::End),
        Keyword::new(b"register".to_vec(), Tok::Register),
        Keyword::new(b"fn".to_vec(), Tok::Fn),
        Keyword::new(b"true".to_vec(), Tok::True),
        Keyword::new(b"false".to_vec(), Tok::False),
    ]
}

#[test]
fn keyword_new_records_length() {
    let k = Keyword::new(b"jump".to_vec(), Tok::Jump);
    assert_eq!(k.len, 4);
    assert_eq!(k.word, b"jump".to_vec());
}

#[test]
fn lexes_keywords_and_classes() {
    let kws = table();
    let mut lx = Lexer::new(b"jump zx12 0x1f 0b010 42 \"hi\" end".to_vec());
    let mut toks = Vec::new();
    while let Some(t) = lx.next_token(&kws) {
        toks.push(t.unwrap().1);
    }
    assert!(matches!(toks[0], Tok::Jump));
    assert!(matches!(&toks[1], Tok::Id(v) if v == b"zx12"));
    assert!(matches!(&toks[2], Tok::Hex(v) if v == b"1f"));
    assert!(matches!(&toks[3], Tok::Bin(v) if v == b"010"));
    assert!(matches!(&toks[4], Tok::Nat(v) if v == b"42"));
    assert!(matches!(&toks[5], Tok::String(v) if v == b"hi"));
    assert!(matches!(toks[6], Tok::End));
    assert_eq!(toks.len(), 7);
}

#[test]
fn reports_position_of_unknown_byte() {
    let kws = table();
    let mut lx = Lexer::new(b"  ?".to_vec());
    match lx.next_token(&kws) {
        Some(Err(e)) => assert_eq!(e.pos, 2),
        other => panic!("expected a lex error, got {:?}", other.is_some()),
    }
}

#[test]
fn built_in_table_gives_keywords_precedence() {
    let kws = isla_footprint::keywords();
    assert_eq!(kws.len(), 76);
    let mut lx = Lexer::new(b"endless @bvadd %bv ::< 0b10".to_vec());
    let mut toks = Vec::new();
    while let Some(t) = lx.next_token(&kws) {
        toks.push(t.unwrap().1);
    }
    assert!(matches!(toks[0], Tok::End));
    assert!(matches!(&toks[1], Tok::Id(v) if v == b"less"));
    assert!(matches!(toks[2], Tok::OpBvadd));
    assert!(matches!(toks[3], Tok::TyBv));
    assert!(matches!(toks[4], Tok::TurboFish));
    assert!(matches!(&toks[5], Tok::Bin(v) if v == b"10"));
    assert_eq!(toks.len(), 6);
}

#[test]
fn error_does_not_advance_the_lexer() {
    let kws = table();
    let mut lx = Lexer::new(b"?x".to_vec());
    match lx.next_token(&kws) {
        Some(Err(e)) => assert_eq!(e.pos, 0),
        other => panic!("expected a lex error, got {:?}", other.is_some()),
    }
    match lx.next_token(&kws) {
        Some(Err(e)) => assert_eq!(e.pos, 0),
        other => panic!("expected the same lex error, got {:?}", other.is_some()),
    }
}
