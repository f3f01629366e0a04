//! The token model for the architecture-description text, and a lexer
//! over its bytes: keywords in table order first, then the hex, binary,
//! number, identifier and string-literal classes.

use vstd::prelude::*;
use vstd::slice::slice_to_vec;
use vstd::string::StringSliceAdditionalSpecFns;

verus! {

/// A token of the architecture-description text.
#[derive(Clone, Debug)]
pub enum Tok {
    Nat(Vec<u8>),
    Id(Vec<u8>),
    String(Vec<u8>),
    Hex(Vec<u8>),
    Bin(Vec<u8>),
    OpNot,
    OpOr,
    OpAnd,
    OpEq,
    OpNeq,
    OpSlice,
    OpSetSlice,
    OpConcat,
    OpSigned,
    OpUnsigned,
    OpBvnot,
    OpBvor,
    OpBvxor,
    OpBvand,
    OpBvadd,
    OpBvsub,
    OpBvaccess,
    OpAdd,
    OpSub,
    OpLteq,
    OpLt,
    OpGteq,
    OpGt,
    OpHead,
    OpTail,
    TyI,
    TyBv,
    TyUnit,
    TyBool,
    TyBit,
    TyString,
    TyReal,
    TyEnum,
    TyStruct,
    TyUnion,
    TyVec,
    TyFVec,
    TyList,
    TurboFish,
    Backtick,
    Gt,
    Amp,
    Lparen,
    Rparen,
    Lbrace,
    Rbrace,
    Dot,
    Star,
    Colon,
    Eq,
    Comma,
    Semi,
    Dollar,
    Bitzero,
    Bitone,
    Unit,
    Arrow,
    Minus,
    Struct,
    Is,
    As,
    Jump,
    Goto,
    Mono,
    Failure,
    Arbitrary,
    Undefined,
    End,
    Register,
    Fn,
    Let,
    Enum,
    Union,
    Val,
    True,
    False,
}

/// Whether two tokens are the same token: the same variant, with equal
/// payload bytes where the variant carries any.
pub open spec fn tok_like(a: Tok, b: Tok) -> bool {
    match (a, b) {
        (Tok::Nat(x), Tok::Nat(y)) => x@ == y@,
        (Tok::Id(x), Tok::Id(y)) => x@ == y@,
        (Tok::String(x), Tok::String(y)) => x@ == y@,
        (Tok::Hex(x), Tok::Hex(y)) => x@ == y@,
        (Tok::Bin(x), Tok::Bin(y)) => x@ == y@,
        (Tok::OpNot, Tok::OpNot) => true,
        (Tok::OpOr, Tok::OpOr) => true,
        (Tok::OpAnd, Tok::OpAnd) => true,
        (Tok::OpEq, Tok::OpEq) => true,
        (Tok::OpNeq, Tok::OpNeq) => true,
        (Tok::OpSlice, Tok::OpSlice) => true,
        (Tok::OpSetSlice, Tok::OpSetSlice) => true,
        (Tok::OpConcat, Tok::OpConcat) => true,
        (Tok::OpSigned, Tok::OpSigned) => true,
        (Tok::OpUnsigned, Tok::OpUnsigned) => true,
        (Tok::OpBvnot, Tok::OpBvnot) => true,
        (Tok::OpBvor, Tok::OpBvor) => true,
        (Tok::OpBvxor, Tok::OpBvxor) => true,
        (Tok::OpBvand, Tok::OpBvand) => true,
        (Tok::OpBvadd, Tok::OpBvadd) => true,
        (Tok::OpBvsub, Tok::OpBvsub) => true,
        (Tok::OpBvaccess, Tok::OpBvaccess) => true,
        (Tok::OpAdd, Tok::OpAdd) => true,
        (Tok::OpSub, Tok::OpSub) => true,
        (Tok::OpLteq, Tok::OpLteq) => true,
        (Tok::OpLt, Tok::OpLt) => true,
        (Tok::OpGteq, Tok::OpGteq) => true,
        (Tok::OpGt, Tok::OpGt) => true,
        (Tok::OpHead, Tok::OpHead) => true,
        (Tok::OpTail, Tok::OpTail) => true,
        (Tok::TyI, Tok::TyI) => true,
        (Tok::TyBv, Tok::TyBv) => true,
        (Tok::TyUnit, Tok::TyUnit) => true,
        (Tok::TyBool, Tok::TyBool) => true,
        (Tok::TyBit, Tok::TyBit) => true,
        (Tok::TyString, Tok::TyString) => true,
        (Tok::TyReal, Tok::TyReal) => true,
        (Tok::TyEnum, Tok::TyEnum) => true,
        (Tok::TyStruct, Tok::TyStruct) => true,
        (Tok::TyUnion, Tok::TyUnion) => true,
        (Tok::TyVec, Tok::TyVec) => true,
        (Tok::TyFVec, Tok::TyFVec) => true,
        (Tok::TyList, Tok::TyList) => true,
        (Tok::TurboFish, Tok::TurboFish) => true,
        (Tok::Backtick, Tok::Backtick) => true,
        (Tok::Gt, Tok::Gt) => true,
        (Tok::Amp, Tok::Amp) => true,
        (Tok::Lparen, Tok::Lparen) => true,
        (Tok::Rparen, Tok::Rparen) => true,
        (Tok::Lbrace, Tok::Lbrace) => true,
        (Tok::Rbrace, Tok::Rbrace) => true,
        (Tok::Dot, Tok::Dot) => true,
        (Tok::Star, Tok::Star) => true,
        (Tok::Colon, Tok::Colon) => true,
        (Tok::Eq, Tok::Eq) => true,
        (Tok::Comma, Tok::Comma) => true,
        (Tok::Semi, Tok::Semi) => true,
        (Tok::Dollar, Tok::Dollar) => true,
        (Tok::Bitzero, Tok::Bitzero) => true,
        (Tok::Bitone, Tok::Bitone) => true,
        (Tok::Unit, Tok::Unit) => true,
        (Tok::Arrow, Tok::Arrow) => true,
        (Tok::Minus, Tok::Minus) => true,
        (Tok::Struct, Tok::Struct) => true,
        (Tok::Is, Tok::Is) => true,
        (Tok::As, Tok::As) => true,
        (Tok::Jump, Tok::Jump) => true,
        (Tok::Goto, Tok::Goto) => true,
        (Tok::Mono, Tok::Mono) => true,
        (Tok::Failure, Tok::Failure) => true,
        (Tok::Arbitrary, Tok::Arbitrary) => true,
        (Tok::Undefined, Tok::Undefined) => true,
        (Tok::End, Tok::End) => true,
        (Tok::Register, Tok::Register) => true,
        (Tok::Fn, Tok::Fn) => true,
        (Tok::Let, Tok::Let) => true,
        (Tok::Enum, Tok::Enum) => true,
        (Tok::Union, Tok::Union) => true,
        (Tok::Val, Tok::Val) => true,
        (Tok::True, Tok::True) => true,
        (Tok::False, Tok::False) => true,
        _ => false,
    }
}

/// A keyword: its spelling, its token, and the spelling's length.
pub struct Keyword {
    pub word: Vec<u8>,
    pub token: Tok,
    pub len: usize,
}

impl Keyword {
    /// Pair a spelling with its token; the length is taken from the
    /// spelling.
    pub fn new(kw: Vec<u8>, tok: Tok) -> (r: Keyword)
        ensures
            r.word@ == kw@,
            r.token == tok,
            r.len == kw@.len(),
    {
        let len = kw.len();
        Keyword { word: kw, token: tok, len }
    }
}

/// Every entry of a keyword table records its spelling's length.
pub open spec fn table_wf(kws: Seq<Keyword>) -> bool {
    forall|k: int| 0 <= k < kws.len() ==> #[trigger] kws[k].len == kws[k].word@.len()
}

/// The spelling of a keyword, as bytes.
fn word(s: &str) -> (r: Vec<u8>)
    ensures
        r@ == s.spec_bytes(),
{
    slice_to_vec(s.as_bytes())
}

/// Append one keyword to a table, keeping it well formed.
fn add_entry(t: &mut Vec<Keyword>, s: &str, tok: Tok)
    requires
        table_wf(old(t)@),
    ensures
        table_wf(final(t)@),
        final(t)@.len() == old(t)@.len() + 1,
{
    t.push(Keyword::new(word(s), tok));
}

/// The built-in keyword table of the architecture-description text, in
/// match order: multi-byte punctuation before its prefixes, then the word
/// keywords, type names and operation names. Built once at startup and
/// passed to the lexer; it is never mutated.
#[verifier::rlimit(100)]
#[verifier::spinoff_prover]
pub fn keywords() -> (r: Vec<Keyword>)
    ensures
        table_wf(r@),
        r@.len() == 76,
{
    let mut t: Vec<Keyword> = Vec::new();
    add_entry(&mut t, "::<", Tok::TurboFish);
    add_entry(&mut t, "`", Tok::Backtick);
    add_entry(&mut t, ">", Tok::Gt);
    add_entry(&mut t, "()", Tok::Unit);
    add_entry(&mut t, "->", Tok::Arrow);
    add_entry(&mut t, "&", Tok::Amp);
    add_entry(&mut t, "(", Tok::Lparen);
    add_entry(&mut t, ")", Tok::Rparen);
    add_entry(&mut t, "{", Tok::Lbrace);
    add_entry(&mut t, "}", Tok::Rbrace);
    add_entry(&mut t, ".", Tok::Dot);
    add_entry(&mut t, "*", Tok::Star);
    add_entry(&mut t, ":", Tok::Colon);
    add_entry(&mut t, "=", Tok::Eq);
    add_entry(&mut t, ",", Tok::Comma);
    add_entry(&mut t, ";", Tok::Semi);
    add_entry(&mut t, "$", Tok::Dollar);
    add_entry(&mut t, "bitzero", Tok::Bitzero);
    add_entry(&mut t, "bitone", Tok::Bitone);
    add_entry(&mut t, "-", Tok::Minus);
    add_entry(&mut t, "struct", Tok::Struct);
    add_entry(&mut t, "is", Tok::Is);
    add_entry(&mut t, "as", Tok::As);
    add_entry(&mut t, "jump", Tok::Jump);
    add_entry(&mut t, "goto", Tok::Goto);
    add_entry(&mut t, "mono", Tok::Mono);
    add_entry(&mut t, "failure", Tok::Failure);
    add_entry(&mut t, "arbitrary", Tok::Arbitrary);
    add_entry(&mut t, "undefined", Tok::Undefined);
    add_entry(&mut t, "end", Tok::End);
    add_entry(&mut t, "register", Tok::Register);
    add_entry(&mut t, "fn", Tok::Fn);
    add_entry(&mut t, "let", Tok::Let);
    add_entry(&mut t, "enum", Tok::Enum);
    add_entry(&mut t, "union", Tok::Union);
    add_entry(&mut t, "val", Tok::Val);
    add_entry(&mut t, "%i", Tok::TyI);
    add_entry(&mut t, "%unit", Tok::TyUnit);
    add_entry(&mut t, "%bool", Tok::TyBool);
    add_entry(&mut t, "%bit", Tok::TyBit);
    add_entry(&mut t, "%string", Tok::TyString);
    add_entry(&mut t, "%real", Tok::TyReal);
    add_entry(&mut t, "%enum", Tok::TyEnum);
    add_entry(&mut t, "%struct", Tok::TyStruct);
    add_entry(&mut t, "%union", Tok::TyUnion);
    add_entry(&mut t, "%vec", Tok::TyVec);
    add_entry(&mut t, "%fvec", Tok::TyFVec);
    add_entry(&mut t, "%list", Tok::TyList);
    add_entry(&mut t, "%bv", Tok::TyBv);
    add_entry(&mut t, "@slice", Tok::OpSlice);
    add_entry(&mut t, "@set_slice", Tok::OpSetSlice);
    add_entry(&mut t, "@concat", Tok::OpConcat);
    add_entry(&mut t, "@unsigned", Tok::OpUnsigned);
    add_entry(&mut t, "@signed", Tok::OpSigned);
    add_entry(&mut t, "@not", Tok::OpNot);
    add_entry(&mut t, "@or", Tok::OpOr);
    add_entry(&mut t, "@and", Tok::OpAnd);
    add_entry(&mut t, "@eq", Tok::OpEq);
    add_entry(&mut t, "@neq", Tok::OpNeq);
    add_entry(&mut t, "@bvnot", Tok::OpBvnot);
    add_entry(&mut t, "@bvor", Tok::OpBvor);
    add_entry(&mut t, "@bvxor", Tok::OpBvxor);
    add_entry(&mut t, "@bvand", Tok::OpBvand);
    add_entry(&mut t, "@bvadd", Tok::OpBvadd);
    add_entry(&mut t, "@bvsub", Tok::OpBvsub);
    add_entry(&mut t, "@bvaccess", Tok::OpBvaccess);
    add_entry(&mut t, "@lteq", Tok::OpLteq);
    add_entry(&mut t, "@lt", Tok::OpLt);
    add_entry(&mut t, "@gteq", Tok::OpGteq);
    add_entry(&mut t, "@gt", Tok::OpGt);
    add_entry(&mut t, "@hd", Tok::OpHead);
    add_entry(&mut t, "@tl", Tok::OpTail);
    add_entry(&mut t, "@iadd", Tok::OpAdd);
    add_entry(&mut t, "@isub", Tok::OpSub);
    add_entry(&mut t, "true", Tok::True);
    add_entry(&mut t, "false", Tok::False);
    t
}

/// A lexer error, carrying the byte position it arose at.
#[derive(Clone, Copy, Debug, PartialEq, Eq, Structural)]
pub struct LexError {
    pub pos: usize,
}

/// A lexer over the bytes of one input.
pub struct Lexer {
    pub buf: Vec<u8>,
    pub pos: usize,
}

/// Whether a byte is whitespace.
pub open spec fn is_ws(b: u8) -> bool {
    b == 32 || b == 9 || b == 10 || b == 13
}

/// Whether a byte can start an identifier.
pub open spec fn is_id_start(b: u8) -> bool {
    (97 <= b <= 122) || (65 <= b <= 90) || b == 95
}

/// Whether a byte can continue an identifier.
pub open spec fn is_id_byte(b: u8) -> bool {
    (97 <= b <= 122) || (65 <= b <= 90) || (48 <= b <= 57) || b == 95 || b == 39
}

/// Whether a byte is a decimal digit.
pub open spec fn is_digit(b: u8) -> bool {
    48 <= b <= 57
}

/// Whether a byte can stand in the body of a hex literal.
pub open spec fn is_hex_body(b: u8) -> bool {
    is_digit(b) || (97 <= b <= 102)
}

/// Whether a byte can stand in the body of a binary literal.
pub open spec fn is_bin_body(b: u8) -> bool {
    b == 48 || b == 49
}

/// Whether a (non-empty) spelling is what the input holds at position `p`.
pub open spec fn kw_matches(buf: Seq<u8>, p: int, w: Seq<u8>) -> bool {
    w.len() > 0 && p + w.len() <= buf.len() && buf.subrange(p, p + w.len() as int) == w
}

/// Whether entry `k` is the first table entry whose spelling is what the
/// input holds at position `p`.
pub open spec fn first_keyword(kws: Seq<Keyword>, buf: Seq<u8>, p: int, k: int) -> bool {
    0 <= k < kws.len() && kw_matches(buf, p, kws[k].word@) && forall|j: int|
        0 <= j < k ==> !kw_matches(buf, p, kws[j].word@)
}

/// Whether some table entry's spelling is what the input holds at `p`.
pub open spec fn some_keyword(kws: Seq<Keyword>, buf: Seq<u8>, p: int) -> bool {
    exists|k: int| 0 <= k < kws.len() && kw_matches(buf, p, #[trigger] kws[k].word@)
}

/// Whether a hex literal (`0x`) starts at position `p`.
pub open spec fn hex_starts(buf: Seq<u8>, p: int) -> bool {
    buf[p] == 48 && p + 1 < buf.len() && buf[p + 1] == 120
}

/// Whether a binary literal (`0b`) starts at position `p`.
pub open spec fn bin_starts(buf: Seq<u8>, p: int) -> bool {
    buf[p] == 48 && p + 1 < buf.len() && buf[p + 1] == 98
}

/// What a token produced at start `s` with end `e` must be, when no table
/// keyword matches at `s`: the hex, binary, number, identifier or string
/// class, each with its exact payload and its maximal extent.
pub open spec fn class_token(buf: Seq<u8>, s: int, tok: Tok, e: int) -> bool {
    if hex_starts(buf, s) {
        &&& tok matches Tok::Hex(v) && v@ == buf.subrange(s + 2, e)
        &&& s + 2 <= e <= buf.len()
        &&& forall|j: int| s + 2 <= j < e ==> is_hex_body(buf[j])
        &&& (e == buf.len() || !is_hex_body(buf[e]))
    } else if bin_starts(buf, s) {
        &&& tok matches Tok::Bin(v) && v@ == buf.subrange(s + 2, e)
        &&& s + 2 <= e <= buf.len()
        &&& forall|j: int| s + 2 <= j < e ==> is_bin_body(buf[j])
        &&& (e == buf.len() || !is_bin_body(buf[e]))
    } else if is_digit(buf[s]) {
        &&& tok matches Tok::Nat(v) && v@ == buf.subrange(s, e)
        &&& s < e <= buf.len()
        &&& forall|j: int| s <= j < e ==> is_digit(buf[j])
        &&& (e == buf.len() || !is_digit(buf[e]))
    } else if is_id_start(buf[s]) {
        &&& tok matches Tok::Id(v) && v@ == buf.subrange(s, e)
        &&& s < e <= buf.len()
        &&& forall|j: int| s <= j < e ==> is_id_byte(buf[j])
        &&& (e == buf.len() || !is_id_byte(buf[e]))
    } else {
        &&& buf[s] == 34
        &&& tok matches Tok::String(v) && v@ == buf.subrange(s + 1, e - 1)
        &&& s + 2 <= e <= buf.len()
        &&& buf[e - 1] == 34
        &&& forall|j: int| s + 1 <= j < e - 1 ==> buf[j] != 34
    }
}

impl Lexer {
    /// A lexer at the start of the given input.
    pub fn new(buf: Vec<u8>) -> (r: Lexer)
        ensures
            r.buf@ == buf@,
            r.pos == 0,
    {
        Lexer { buf, pos: 0 }
    }

    /// Whether the keyword's spelling is what the input holds at the
    /// current position.
    fn matches_at(&self, kw: &Keyword) -> (r: bool)
        requires
            self.pos <= self.buf@.len(),
            kw.len == kw.word@.len(),
        ensures
            r == kw_matches(self.buf@, self.pos as int, kw.word@),
    {
        if kw.len == 0 || kw.len > self.buf.len() - self.pos {
            return false;
        }
        let mut i: usize = 0;
        while i < kw.len
            invariant
                i <= kw.word@.len(),
                kw.len == kw.word@.len(),
                0 < kw.word@.len(),
                self.pos + kw.word@.len() <= self.buf@.len(),
                forall|j: int| 0 <= j < i ==> self.buf@[self.pos + j] == kw.word@[j],
            decreases kw.word@.len() - i,
        {
            let n = self.buf.len();
            proof {
                assert(self.pos + i < n);
            }
            let idx = self.pos + i;
            if self.buf[idx] != kw.word[i] {
                proof {
                    assert(self.buf@.subrange(self.pos as int, self.pos + kw.word@.len() as int)[
                    i as int] != kw.word@[i as int]);
                }
                return false;
            }
            i += 1;
        }
        proof {
            assert(self.buf@.subrange(self.pos as int, self.pos + kw.word@.len() as int)
                =~= kw.word@);
        }
        true
    }

    /// Produce the next token. Whitespace is skipped; the end of input
    /// yields `None` (and only the end of input does); otherwise the first
    /// matching table entry wins, in table order, before the hex, binary,
    /// number, identifier and string classes; anything else — or an
    /// unterminated string — is a positioned error, and the lexer does not
    /// move past it.
    #[verifier::rlimit(100)]
    pub fn next_token(&mut self, keywords: &Vec<Keyword>) -> (r: Option<
        Result<(usize, Tok, usize), LexError>,
    >)
        requires
            old(self).pos <= old(self).buf@.len(),
            table_wf(keywords@),
        ensures
            final(self).buf@ == old(self).buf@,
            old(self).pos <= final(self).pos <= final(self).buf@.len(),
            (r is None) <==> (forall|j: int|
                old(self).pos <= j < old(self).buf@.len() ==> is_ws(#[trigger] old(self).buf@[j])),
            r is None ==> final(self).pos == final(self).buf@.len(),
            r matches Some(Ok(t)) ==> {
                &&& old(self).pos <= t.0 < t.2 <= old(self).buf@.len()
                &&& t.2 == final(self).pos
                &&& (forall|j: int| old(self).pos <= j < t.0 ==> is_ws(old(self).buf@[j]))
                &&& !is_ws(old(self).buf@[t.0 as int])
                &&& (forall|k: int|
                    first_keyword(keywords@, old(self).buf@, t.0 as int, k) ==> t.2 == t.0
                        + keywords@[k].word@.len() && tok_like(t.1, keywords@[k].token))
                &&& (!some_keyword(keywords@, old(self).buf@, t.0 as int) ==> class_token(
                    old(self).buf@,
                    t.0 as int,
                    t.1,
                    t.2 as int,
                ))
            },
            r matches Some(Err(e)) ==> {
                &&& old(self).pos <= e.pos < old(self).buf@.len()
                &&& final(self).pos == e.pos
                &&& (forall|j: int| old(self).pos <= j < e.pos ==> is_ws(old(self).buf@[j]))
                &&& !is_ws(old(self).buf@[e.pos as int])
                &&& !some_keyword(keywords@, old(self).buf@, e.pos as int)
                &&& !hex_starts(old(self).buf@, e.pos as int)
                &&& !bin_starts(old(self).buf@, e.pos as int)
                &&& !is_digit(old(self).buf@[e.pos as int])
                &&& !is_id_start(old(self).buf@[e.pos as int])
                &&& (old(self).buf@[e.pos as int] == 34 ==> forall|j: int|
                    e.pos < j < old(self).buf@.len() ==> old(self).buf@[j] != 34)
            },
    {
        // skip whitespace
        while self.pos < self.buf.len() && (self.buf[self.pos] == 32 || self.buf[self.pos] == 9
            || self.buf[self.pos] == 10 || self.buf[self.pos] == 13)
            invariant
                self.pos <= self.buf@.len(),
                self.buf@ == old(self).buf@,
                self.pos >= old(self).pos,
                forall|j: int| old(self).pos <= j < self.pos ==> is_ws(old(self).buf@[j]),
            decreases self.buf@.len() - self.pos,
        {
            self.pos = self.pos + 1;
        }
        if self.pos >= self.buf.len() {
            return None;
        }
        let start = self.pos;
        // keywords, in table order
        let mut k: usize = 0;
        while k < keywords.len()
            invariant
                self.pos == start,
                start < self.buf@.len(),
                self.buf@ == old(self).buf@,
                start >= old(self).pos,
                table_wf(keywords@),
                forall|j: int|
                    old(self).pos <= j < start ==> is_ws(old(self).buf@[j]),
                !is_ws(old(self).buf@[start as int]),
                forall|j: int|
                    0 <= j < k ==> !kw_matches(self.buf@, start as int, #[trigger] keywords@[j].word@),
            decreases keywords@.len() - k,
        {
            if self.matches_at(&keywords[k]) {
                let n = self.buf.len();
                proof {
                    assert(keywords@[k as int].len == keywords@[k as int].word@.len());
                    assert(self.pos + keywords@[k as int].len <= n);
                }
                self.pos = self.pos + keywords[k].len;
                let tok = clone_tok(&keywords[k].token);
                proof {
                    assert forall|k2: int|
                        first_keyword(keywords@, old(self).buf@, start as int, k2) implies k2
                        == k as int by {
                        if k2 < k as int {
                            assert(!kw_matches(old(self).buf@, start as int, keywords@[k2].word@));
                        }
                        if k2 > k as int {
                            assert(!kw_matches(old(self).buf@, start as int, keywords@[k as int].word@));
                        }
                    }
                }
                return Some(Ok((start, tok, self.pos)));
            }
            k += 1;
        }
        proof {
            assert(!some_keyword(keywords@, old(self).buf@, start as int));
        }
        let b = self.buf[self.pos];
        // hex literals
        if b == 48 && self.pos + 1 < self.buf.len() && self.buf[self.pos + 1] == 120 {
            self.pos = self.pos + 2;
            let mut body: Vec<u8> = Vec::new();
            while self.pos < self.buf.len() && (is_digit_exec(self.buf[self.pos]) || (97
                <= self.buf[self.pos] && self.buf[self.pos] <= 102))
                invariant
                    self.buf@ == old(self).buf@,
                    start + 2 <= self.pos <= self.buf@.len(),
                    body@ == self.buf@.subrange(start + 2, self.pos as int),
                    forall|j: int| start + 2 <= j < self.pos ==> is_hex_body(old(self).buf@[j]),
                decreases self.buf@.len() - self.pos,
            {
                body.push(self.buf[self.pos]);
                self.pos = self.pos + 1;
                proof {
                    assert(body@ =~= self.buf@.subrange(start + 2, self.pos as int));
                }
            }
            return Some(Ok((start, Tok::Hex(body), self.pos)));
        }
        // binary literals
        if b == 48 && self.pos + 1 < self.buf.len() && self.buf[self.pos + 1] == 98 {
            self.pos = self.pos + 2;
            let mut body: Vec<u8> = Vec::new();
            while self.pos < self.buf.len() && (self.buf[self.pos] == 48 || self.buf[self.pos]
                == 49)
                invariant
                    self.buf@ == old(self).buf@,
                    start + 2 <= self.pos <= self.buf@.len(),
                    body@ == self.buf@.subrange(start + 2, self.pos as int),
                    forall|j: int| start + 2 <= j < self.pos ==> is_bin_body(old(self).buf@[j]),
                decreases self.buf@.len() - self.pos,
            {
                body.push(self.buf[self.pos]);
                self.pos = self.pos + 1;
                proof {
                    assert(body@ =~= self.buf@.subrange(start + 2, self.pos as int));
                }
            }
            return Some(Ok((start, Tok::Bin(body), self.pos)));
        }
        // numbers
        if is_digit_exec(b) {
            let mut body: Vec<u8> = Vec::new();
            while self.pos < self.buf.len() && is_digit_exec(self.buf[self.pos])
                invariant
                    self.buf@ == old(self).buf@,
                    start <= self.pos <= self.buf@.len(),
                    body@ == self.buf@.subrange(start as int, self.pos as int),
                    forall|j: int| start <= j < self.pos ==> is_digit(old(self).buf@[j]),
                decreases self.buf@.len() - self.pos,
            {
                body.push(self.buf[self.pos]);
                self.pos = self.pos + 1;
                proof {
                    assert(body@ =~= self.buf@.subrange(start as int, self.pos as int));
                }
            }
            return Some(Ok((start, Tok::Nat(body), self.pos)));
        }
        // identifiers
        if is_id_start_exec(b) {
            let mut body: Vec<u8> = Vec::new();
            while self.pos < self.buf.len() && is_id_byte_exec(self.buf[self.pos])
                invariant
                    self.buf@ == old(self).buf@,
                    start <= self.pos <= self.buf@.len(),
                    body@ == self.buf@.subrange(start as int, self.pos as int),
                    forall|j: int| start <= j < self.pos ==> is_id_byte(old(self).buf@[j]),
                decreases self.buf@.len() - self.pos,
            {
                body.push(self.buf[self.pos]);
                self.pos = self.pos + 1;
                proof {
                    assert(body@ =~= self.buf@.subrange(start as int, self.pos as int));
                }
            }
            return Some(Ok((start, Tok::Id(body), self.pos)));
        }
        // string literals
        if b == 34 {
            self.pos = self.pos + 1;
            let mut body: Vec<u8> = Vec::new();
            while self.pos < self.buf.len() && self.buf[self.pos] != 34
                invariant
                    self.buf@ == old(self).buf@,
                    start + 1 <= self.pos <= self.buf@.len(),
                    body@ == self.buf@.subrange(start + 1, self.pos as int),
                    forall|j: int| start + 1 <= j < self.pos ==> old(self).buf@[j] != 34,
                decreases self.buf@.len() - self.pos,
            {
                body.push(self.buf[self.pos]);
                self.pos = self.pos + 1;
                proof {
                    assert(body@ =~= self.buf@.subrange(start + 1, self.pos as int));
                }
            }
            if self.pos < self.buf.len() {
                self.pos = self.pos + 1;
                return Some(Ok((start, Tok::String(body), self.pos)));
            }
            self.pos = start;
            return Some(Err(LexError { pos: start }));
        }
        Some(Err(LexError { pos: start }))
    }
}

/// Whether a byte can start an identifier, executably.
fn is_id_start_exec(b: u8) -> (r: bool)
    ensures
        r == is_id_start(b),
{
    (97 <= b && b <= 122) || (65 <= b && b <= 90) || b == 95
}

/// Whether a byte can continue an identifier, executably.
fn is_id_byte_exec(b: u8) -> (r: bool)
    ensures
        r == is_id_byte(b),
{
    (97 <= b && b <= 122) || (65 <= b && b <= 90) || (48 <= b && b <= 57) || b == 95 || b == 39
}

/// Whether a byte is a decimal digit, executably.
fn is_digit_exec(b: u8) -> (r: bool)
    ensures
        r == is_digit(b),
{
    48 <= b && b <= 57
}

/// A copy of a token: the same variant with the same payload bytes.
pub fn clone_tok(t: &Tok) -> (r: Tok)
    ensures
        tok_like(r, *t),
{
    match t {
        Tok::Nat(v) => Tok::Nat(copy_bytes(v)),
        Tok::Id(v) => Tok::Id(copy_bytes(v)),
        Tok::String(v) => Tok::String(copy_bytes(v)),
        Tok::Hex(v) => Tok::Hex(copy_bytes(v)),
        Tok::Bin(v) => Tok::Bin(copy_bytes(v)),
        Tok::OpNot => Tok::OpNot,
        Tok::OpOr => Tok::OpOr,
        Tok::OpAnd => Tok::OpAnd,
        Tok::OpEq => Tok::OpEq,
        Tok::OpNeq => Tok::OpNeq,
        Tok::OpSlice => Tok::OpSlice,
        Tok::OpSetSlice => Tok::OpSetSlice,
        Tok::OpConcat => Tok::OpConcat,
        Tok::OpSigned => Tok::OpSigned,
        Tok::OpUnsigned => Tok::OpUnsigned,
        Tok::OpBvnot => Tok::OpBvnot,
        Tok::OpBvor => Tok::OpBvor,
        Tok::OpBvxor => Tok::OpBvxor,
        Tok::OpBvand => Tok::OpBvand,
        Tok::OpBvadd => Tok::OpBvadd,
        Tok::OpBvsub => Tok::OpBvsub,
        Tok::OpBvaccess => Tok::OpBvaccess,
        Tok::OpAdd => Tok::OpAdd,
        Tok::OpSub => Tok::OpSub,
        Tok::OpLteq => Tok::OpLteq,
        Tok::OpLt => Tok::OpLt,
        Tok::OpGteq => Tok::OpGteq,
        Tok::OpGt => Tok::OpGt,
        Tok::OpHead => Tok::OpHead,
        Tok::OpTail => Tok::OpTail,
        Tok::TyI => Tok::TyI,
        Tok::TyBv => Tok::TyBv,
        Tok::TyUnit => Tok::TyUnit,
        Tok::TyBool => Tok::TyBool,
        Tok::TyBit => Tok::TyBit,
        Tok::TyString => Tok::TyString,
        Tok::TyReal => Tok::TyReal,
        Tok::TyEnum => Tok::TyEnum,
        Tok::TyStruct => Tok::TyStruct,
        Tok::TyUnion => Tok::TyUnion,
        Tok::TyVec => Tok::TyVec,
        Tok::TyFVec => Tok::TyFVec,
        Tok::TyList => Tok::TyList,
        Tok::TurboFish => Tok::TurboFish,
        Tok::Backtick => Tok::Backtick,
        Tok::Gt => Tok::Gt,
        Tok::Amp => Tok::Amp,
        Tok::Lparen => Tok::Lparen,
        Tok::Rparen => Tok::Rparen,
        Tok::Lbrace => Tok::Lbrace,
        Tok::Rbrace => Tok::Rbrace,
        Tok::Dot => Tok::Dot,
        Tok::Star => Tok::Star,
        Tok::Colon => Tok::Colon,
        Tok::Eq => Tok::Eq,
        Tok::Comma => Tok::Comma,
        Tok::Semi => Tok::Semi,
        Tok::Dollar => Tok::Dollar,
        Tok::Bitzero => Tok::Bitzero,
        Tok::Bitone => Tok::Bitone,
        Tok::Unit => Tok::Unit,
        Tok::Arrow => Tok::Arrow,
        Tok::Minus => Tok::Minus,
        Tok::Struct => Tok::Struct,
        Tok::Is => Tok::Is,
        Tok::As => Tok::As,
        Tok::Jump => Tok::Jump,
        Tok::Goto => Tok::Goto,
        Tok::Mono => Tok::Mono,
        Tok::Failure => Tok::Failure,
        Tok::Arbitrary => Tok::Arbitrary,
        Tok::Undefined => Tok::Undefined,
        Tok::End => Tok::End,
        Tok::Register => Tok::Register,
        Tok::Fn => Tok::Fn,
        Tok::Let => Tok::Let,
        Tok::Enum => Tok::Enum,
        Tok::Union => Tok::Union,
        Tok::Val => Tok::Val,
        Tok::True => Tok::True,
        Tok::False => Tok::False,
    }
}

/// A copy of a byte vector.
fn copy_bytes(v: &Vec<u8>) -> (r: Vec<u8>)
    ensures
        r@ == v@,
{
    let mut r: Vec<u8> = Vec::new();
    let mut i: usize = 0;
    while i < v.len()
        invariant
            i <= v@.len(),
            r@ == v@.subrange(0, i as int),
        decreases v@.len() - i,
    {
        r.push(v[i]);
        i += 1;
        proof {
            assert(r@ =~= v@.subrange(0, i as int));
        }
    }
    proof {
        assert(r@ =~= v@);
    }
    r
}

} // verus!
