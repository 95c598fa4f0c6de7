use vstd::prelude::*;

verus! {

/// The delimiter of a bracketed group of tokens.
#[derive(Clone, Copy, Debug, PartialEq, Eq, Structural)]
pub enum Delim {
    Paren,
    Brace,
    Bracket,
    /// A group with no visible delimiter.
    Invisible,
}

/// One token of a flat token stream: a group is written as its opening
/// delimiter, its contents and its closing delimiter.
#[derive(Clone, Debug, PartialEq, Eq)]
pub enum Token {
    Ident(String),
    /// A punctuation character; `true` when it is joined to the next one (as `-` in `->`).
    Punct(char, bool),
    Literal(String),
    Open(Delim),
    Close(Delim),
}

/// What a token is, with its text as a sequence of characters.
pub enum TokenV {
    Ident(Seq<char>),
    Punct(char, bool),
    Literal(Seq<char>),
    Open(Delim),
    Close(Delim),
}

impl View for Token {
    type V = TokenV;

    open spec fn view(&self) -> TokenV {
        match self {
            Token::Ident(s) => TokenV::Ident(s@),
            Token::Punct(c, j) => TokenV::Punct(*c, *j),
            Token::Literal(s) => TokenV::Literal(s@),
            Token::Open(d) => TokenV::Open(*d),
            Token::Close(d) => TokenV::Close(*d),
        }
    }
}

/// The view of each token of a stream.
pub open spec fn toks(s: Seq<Token>) -> Seq<TokenV> {
    s.map_values(|t: Token| t@)
}

/// A copy of a token.
pub fn copy_token(t: &Token) -> (r: Token)
    ensures
        r@ == t@,
{
    match t {
        Token::Ident(s) => Token::Ident(s.clone()),
        Token::Punct(c, j) => Token::Punct(*c, *j),
        Token::Literal(s) => Token::Literal(s.clone()),
        Token::Open(d) => Token::Open(*d),
        Token::Close(d) => Token::Close(*d),
    }
}

/// Appends a copy of every token of `src` to `out`.
pub fn extend_tokens(out: &mut Vec<Token>, src: &Vec<Token>)
    ensures
        toks(final(out)@) == toks(old(out)@) + toks(src@),
{
    let mut i: usize = 0;
    while i < src.len()
        invariant
            i <= src@.len(),
            toks(out@) == toks(old(out)@) + toks(src@.subrange(0, i as int)),
        decreases src@.len() - i,
    {
        let ghost prev = out@;
        let t = copy_token(&src[i]);
        out.push(t);
        assert(toks(out@) =~= toks(prev).push(src@[i as int]@));
        assert(toks(src@.subrange(0, i + 1)) =~= toks(src@.subrange(0, i as int)).push(src@[i as int]@));
        assert(toks(out@) =~= toks(old(out)@) + toks(src@.subrange(0, i + 1)));
        i = i + 1;
    }
    assert(src@.subrange(0, src@.len() as int) =~= src@);
}

/// Appends one token to `out`.
pub fn push_token(out: &mut Vec<Token>, t: Token)
    ensures
        toks(final(out)@) == toks(old(out)@).push(t@),
{
    out.push(t);
    assert(toks(out@) =~= toks(old(out)@).push(t@));
}

/// A copy of a token stream.
pub fn copy_tokens(src: &Vec<Token>) -> (r: Vec<Token>)
    ensures
        toks(r@) == toks(src@),
{
    let mut r: Vec<Token> = Vec::new();
    extend_tokens(&mut r, src);
    assert(toks(r@) =~= toks(src@));
    r
}

/// An identifier token with the given text.
pub fn ident(s: &str) -> (r: Token)
    ensures
        r@ == TokenV::Ident(s@),
{
    Token::Ident(s.to_owned())
}

/// A punctuation character that stands alone.
pub open spec fn punct(c: char) -> TokenV {
    TokenV::Punct(c, false)
}

/// The streams of a list of parts, one after the other.
pub open spec fn concat(parts: Seq<Seq<TokenV>>) -> Seq<TokenV>
    decreases parts.len(),
{
    if parts.len() == 0 {
        Seq::empty()
    } else {
        parts[0] + concat(parts.drop_first())
    }
}

/// `n` tokens, each of them `t`.
pub open spec fn repeat(t: TokenV, n: nat) -> Seq<TokenV> {
    Seq::new(n, |i: int| t)
}

/// The change of nesting depth that a token makes.
pub open spec fn delta(t: TokenV) -> int {
    match t {
        TokenV::Open(_) => 1,
        TokenV::Close(_) => -1,
        _ => 0,
    }
}

/// The nesting depth at the end of a stream.
pub open spec fn depth(s: Seq<TokenV>) -> int
    decreases s.len(),
{
    if s.len() == 0 {
        0
    } else {
        depth(s.drop_last()) + delta(s.last())
    }
}

/// The view of each stream of a list.
pub open spec fn streams(v: Seq<Vec<Token>>) -> Seq<Seq<TokenV>> {
    v.map_values(|x: Vec<Token>| toks(x@))
}

/// Adding a part at the end adds its tokens at the end.
pub proof fn lemma_concat_push(parts: Seq<Seq<TokenV>>, x: Seq<TokenV>)
    ensures
        concat(parts.push(x)) == concat(parts) + x,
    decreases parts.len(),
{
    if parts.len() == 0 {
        assert(parts.push(x).drop_first() =~= Seq::<Seq<TokenV>>::empty());
        assert(concat(parts.push(x).drop_first()) == Seq::<TokenV>::empty());
        assert(parts.push(x)[0] == x);
        assert(concat(parts.push(x)) =~= concat(parts) + x);
    } else {
        assert(parts.push(x).drop_first() =~= parts.drop_first().push(x));
        lemma_concat_push(parts.drop_first(), x);
        assert(parts.push(x)[0] == parts[0]);
        assert(concat(parts.push(x)) =~= concat(parts) + x);
    }
}

} // verus!
