use vstd::prelude::*;

use crate::token::{
    concat, copy_tokens, delta, depth, extend_tokens, ident, lemma_concat_push, punct, push_token, repeat,
    streams, toks, Delim, Token, TokenV,
};
use crate::CurryError;

verus! {

/// One parameter of a function declaration.
#[derive(Clone, Debug, PartialEq, Eq)]
pub enum FnParam {
    /// A receiver: `self`, `&self`, `&mut self` and the like.
    Receiver,
    /// A typed parameter `pat: ty`.
    Typed { pat: Vec<Token>, ty: Vec<Token> },
}

/// A function declaration, each part as the tokens that write it.
#[derive(Clone, Debug, PartialEq, Eq)]
pub struct FnDecl {
    /// The visibility (`pub`, `pub(crate)`), or nothing.
    pub vis: Vec<Token>,
    /// The function's name.
    pub ident: String,
    /// The generic parameters with their bounds (`<T: Display>`), or nothing.
    pub generics: Vec<Token>,
    /// The parameters, in order.
    pub params: Vec<FnParam>,
    /// The return type with its arrow (`-> i32`), or nothing for the unit type.
    pub output: Vec<Token>,
    /// The where clause, or nothing.
    pub where_clause: Vec<Token>,
    /// The body, braces included.
    pub body: Vec<Token>,
}

/// Some parameter is a receiver.
pub open spec fn has_receiver(ps: Seq<FnParam>) -> bool {
    exists|i: int| 0 <= i < ps.len() && ps[i] is Receiver
}

/// The patterns of the parameters, in order.
pub open spec fn param_pats(ps: Seq<FnParam>) -> Seq<Seq<TokenV>> {
    ps.map_values(
        |p: FnParam|
            match p {
                FnParam::Typed { pat, .. } => toks(pat@),
                FnParam::Receiver => Seq::empty(),
            },
    )
}

/// The types of the parameters, in order.
pub open spec fn param_tys(ps: Seq<FnParam>) -> Seq<Seq<TokenV>> {
    ps.map_values(
        |p: FnParam|
            match p {
                FnParam::Typed { ty, .. } => toks(ty@),
                FnParam::Receiver => Seq::empty(),
            },
    )
}

/// The parameter list of the curried function: the first parameter
/// `pat: ty`, or nothing.
pub open spec fn first_param(pats: Seq<Seq<TokenV>>, tys: Seq<Seq<TokenV>>) -> Seq<TokenV> {
    if pats.len() == 0 {
        Seq::empty()
    } else {
        pats[0] + seq![punct(':')] + tys[0]
    }
}

/// The curried form of a declaration: the same visibility, name, generics
/// and where clause, the first parameter alone, and the return type and
/// body that bind the other parameters one by one.
pub open spec fn curried(d: FnDecl) -> Seq<TokenV> {
    let pats = param_pats(d.params@);
    let tys = param_tys(d.params@);
    toks(d.vis@) + seq![TokenV::Ident("fn"@), TokenV::Ident(d.ident@)] + toks(d.generics@) + seq![
        TokenV::Open(Delim::Paren),
    ] + first_param(pats, tys) + seq![TokenV::Close(Delim::Paren)] + return_chain(
        tail(tys),
        toks(d.output@),
    ) + toks(d.where_clause@) + seq![TokenV::Open(Delim::Brace)] + body_chain(
        tail(pats),
        tail(tys),
        toks(d.body@),
    ) + seq![TokenV::Close(Delim::Brace)]
}

/// `->`
pub open spec fn arrow() -> Seq<TokenV> {
    seq![TokenV::Punct('-', true), punct('>')]
}

/// The opening of one level of the return type: `-> Box<dyn FnOnce(ty)`.
pub open spec fn fn_once_head(ty: Seq<TokenV>) -> Seq<TokenV> {
    arrow() + seq![
        TokenV::Ident("Box"@),
        punct('<'),
        TokenV::Ident("dyn"@),
        TokenV::Ident("FnOnce"@),
        TokenV::Open(Delim::Paren),
    ] + ty + seq![TokenV::Close(Delim::Paren)]
}

/// The return type of a curried function that still takes arguments of the
/// types `tys`, in order, and in the end returns `ret` (written with its
/// arrow, or empty for the unit type): each type wraps what the later
/// ones give, the first one outermost.
pub open spec fn return_chain(tys: Seq<Seq<TokenV>>, ret: Seq<TokenV>) -> Seq<TokenV>
    decreases tys.len(),
{
    if tys.len() == 0 {
        ret
    } else {
        fn_once_head(tys[0]) + return_chain(tys.drop_first(), ret) + seq![punct('>')]
    }
}

/// The opening of one closure level of the body: `Box::new(move |pat: ty|`.
pub open spec fn closure_head(pat: Seq<TokenV>, ty: Seq<TokenV>) -> Seq<TokenV> {
    seq![
        TokenV::Ident("Box"@),
        TokenV::Punct(':', true),
        punct(':'),
        TokenV::Ident("new"@),
        TokenV::Open(Delim::Paren),
        TokenV::Ident("move"@),
        punct('|'),
    ] + pat + seq![punct(':')] + ty + seq![punct('|')]
}

/// The body of a curried function that still binds the arguments `pats`
/// of types `tys`, in order, before it runs `body`: one boxed closure for
/// each pair, the first one outermost.
pub open spec fn body_chain(pats: Seq<Seq<TokenV>>, tys: Seq<Seq<TokenV>>, body: Seq<TokenV>) -> Seq<TokenV>
    decreases pats.len(),
{
    if pats.len() == 0 || tys.len() == 0 {
        body
    } else {
        closure_head(pats[0], tys[0]) + body_chain(pats.drop_first(), tys.drop_first(), body)
            + seq![TokenV::Close(Delim::Paren)]
    }
}

/// A list without its first element (empty stays empty).
pub open spec fn tail(s: Seq<Seq<TokenV>>) -> Seq<Seq<TokenV>> {
    if s.len() == 0 {
        s
    } else {
        s.drop_first()
    }
}

/// The opening of the return-type level of each type, in order.
pub open spec fn fn_once_heads(tys: Seq<Seq<TokenV>>) -> Seq<Seq<TokenV>> {
    tys.map_values(|t: Seq<TokenV>| fn_once_head(t))
}

/// The number of (pattern, type) pairs that two lists make together.
pub open spec fn pair_count(pats: Seq<Seq<TokenV>>, tys: Seq<Seq<TokenV>>) -> nat {
    if pats.len() <= tys.len() {
        pats.len()
    } else {
        tys.len()
    }
}

/// The opening of the closure level of each (pattern, type) pair, in order.
pub open spec fn closure_heads(pats: Seq<Seq<TokenV>>, tys: Seq<Seq<TokenV>>) -> Seq<Seq<TokenV>> {
    Seq::new(pair_count(pats, tys), |i: int| closure_head(pats[i], tys[i]))
}

/// The return type is made of exactly one level per remaining argument:
/// the openings of the levels in argument order, the original return type,
/// and one closing `>` per level.
pub proof fn lemma_return_chain_levels(tys: Seq<Seq<TokenV>>, ret: Seq<TokenV>)
    ensures
        return_chain(tys, ret) == concat(fn_once_heads(tys)) + ret + repeat(punct('>'), tys.len()),
    decreases tys.len(),
{
    if tys.len() == 0 {
        assert(concat(fn_once_heads(tys)) =~= Seq::<TokenV>::empty());
        assert(return_chain(tys, ret) =~= concat(fn_once_heads(tys)) + ret + repeat(punct('>'), tys.len()));
    } else {
        lemma_return_chain_levels(tys.drop_first(), ret);
        assert(fn_once_heads(tys).drop_first() =~= fn_once_heads(tys.drop_first()));
        assert(repeat(punct('>'), tys.len()) =~= repeat(punct('>'), (tys.len() - 1) as nat) + seq![punct('>')]);
        assert(return_chain(tys, ret) =~= concat(fn_once_heads(tys)) + ret + repeat(punct('>'), tys.len()));
    }
}

/// The body is made of exactly one closure level per remaining argument:
/// the openings of the levels in argument order, the original body, and
/// one closing parenthesis per level.
pub proof fn lemma_body_chain_levels(pats: Seq<Seq<TokenV>>, tys: Seq<Seq<TokenV>>, body: Seq<TokenV>)
    ensures
        body_chain(pats, tys, body) == concat(closure_heads(pats, tys)) + body
            + repeat(TokenV::Close(Delim::Paren), pair_count(pats, tys)),
    decreases pats.len(),
{
    let close = TokenV::Close(Delim::Paren);
    if pats.len() == 0 || tys.len() == 0 {
        assert(concat(closure_heads(pats, tys)) =~= Seq::<TokenV>::empty());
        assert(body_chain(pats, tys, body) =~= concat(closure_heads(pats, tys)) + body
            + repeat(close, pair_count(pats, tys)));
    } else {
        lemma_body_chain_levels(pats.drop_first(), tys.drop_first(), body);
        assert(closure_heads(pats, tys).drop_first() =~= closure_heads(pats.drop_first(), tys.drop_first()));
        let n = pair_count(pats, tys);
        assert(repeat(close, n) =~= repeat(close, (n - 1) as nat) + seq![close]);
        assert(body_chain(pats, tys, body) =~= concat(closure_heads(pats, tys)) + body
            + repeat(close, pair_count(pats, tys)));
    }
}

/// A type's tokens close every group they open, and never close one they
/// did not open.
pub open spec fn balanced(s: Seq<TokenV>) -> bool {
    &&& depth(s) == 0
    &&& forall|i: int| 0 <= i <= s.len() ==> depth(#[trigger] s.take(i)) >= 0
}

/// What calling a value whose type is written by `chain` with an argument of
/// type `arg` gives: the return type inside `-> Box<dyn FnOnce(arg) ...>`,
/// or `None` when the chain does not take an argument of that type.
pub open spec fn apply_fn_once(chain: Seq<TokenV>, arg: Seq<TokenV>) -> Option<Seq<TokenV>> {
    let h = fn_once_head(arg);
    if chain.len() >= h.len() + 1 && chain.take(h.len() as int) == h && chain.last() == punct('>') {
        Some(chain.subrange(h.len() as int, chain.len() - 1))
    } else {
        None
    }
}

/// Calls with arguments of the types `args`, in order.
pub open spec fn apply_all(chain: Seq<TokenV>, args: Seq<Seq<TokenV>>) -> Option<Seq<TokenV>>
    decreases args.len(),
{
    if args.len() == 0 {
        Some(chain)
    } else {
        match apply_fn_once(chain, args[0]) {
            Some(inner) => apply_all(inner, args.drop_first()),
            None => None,
        }
    }
}

/// Applying the curried return type to one argument of each remaining
/// parameter type, in order, gives back the original return type.
pub proof fn lemma_apply_in_order(tys: Seq<Seq<TokenV>>, ret: Seq<TokenV>)
    ensures
        apply_all(return_chain(tys, ret), tys) == Some(ret),
    decreases tys.len(),
{
    if tys.len() > 0 {
        let c = return_chain(tys, ret);
        let h = fn_once_head(tys[0]);
        assert(c.take(h.len() as int) =~= h);
        assert(c.subrange(h.len() as int, c.len() - 1) =~= return_chain(tys.drop_first(), ret));
        lemma_apply_in_order(tys.drop_first(), ret);
    }
}

proof fn lemma_depth_step(s: Seq<TokenV>, i: int)
    requires
        0 <= i < s.len(),
    ensures
        depth(s.take(i + 1)) == depth(s.take(i)) + delta(s[i]),
{
    assert(s.take(i + 1).drop_last() =~= s.take(i));
}

/// A balanced type never has a closing parenthesis right after a balanced
/// prefix of it, so the parameter type of `-> Box<dyn FnOnce(..)` is read
/// back in one way only.
proof fn lemma_head_unique(a: Seq<TokenV>, t: Seq<TokenV>, x: Seq<TokenV>, y: Seq<TokenV>)
    requires
        balanced(a),
        balanced(t),
        fn_once_head(a) + x == fn_once_head(t) + y,
    ensures
        a == t,
        x == y,
{
    let l = fn_once_head(a) + x;
    let r = fn_once_head(t) + y;
    let close = TokenV::Close(Delim::Paren);
    let (na, nt) = (a.len() as int, t.len() as int);
    if na < nt {
        assert(l[7 + na] == close);
        assert(r[7 + na] == t[na]);
        assert forall|k: int| 0 <= k < na implies t[k] == a[k] by {
            assert(l[7 + k] == a[k]);
            assert(r[7 + k] == t[k]);
        }
        assert(t.take(na) =~= a);
        assert(a.take(na) =~= a);
        lemma_depth_step(t, na);
        assert(depth(t.take(na + 1)) >= 0);
        assert(false);
    } else if nt < na {
        assert(r[7 + nt] == close);
        assert(l[7 + nt] == a[nt]);
        assert forall|k: int| 0 <= k < nt implies a[k] == t[k] by {
            assert(l[7 + k] == a[k]);
            assert(r[7 + k] == t[k]);
        }
        assert(a.take(nt) =~= t);
        assert(t.take(nt) =~= t);
        lemma_depth_step(a, nt);
        assert(depth(a.take(nt + 1)) >= 0);
        assert(false);
    }
    assert forall|k: int| 0 <= k < na implies a[k] == t[k] by {
        assert(l[7 + k] == a[k]);
        assert(r[7 + k] == t[k]);
    }
    assert(a =~= t);
    assert(x =~= l.subrange(fn_once_head(a).len() as int, l.len() as int));
    assert(y =~= r.subrange(fn_once_head(t).len() as int, r.len() as int));
}

/// The curried return type takes its arguments in one order only: where
/// the parameter and argument types are balanced, applying it to as many
/// arguments succeeds only when their types are the parameter types in
/// order.
pub proof fn lemma_apply_order_sensitive(tys: Seq<Seq<TokenV>>, ret: Seq<TokenV>, args: Seq<Seq<TokenV>>)
    requires
        args.len() == tys.len(),
        forall|i: int| 0 <= i < tys.len() ==> balanced(#[trigger] tys[i]),
        forall|i: int| 0 <= i < args.len() ==> balanced(#[trigger] args[i]),
        apply_all(return_chain(tys, ret), args) is Some,
    ensures
        args == tys,
    decreases tys.len(),
{
    if tys.len() > 0 {
        let c = return_chain(tys, ret);
        let inner = return_chain(tys.drop_first(), ret);
        let ha = fn_once_head(args[0]);
        assert(apply_fn_once(c, args[0]) is Some);
        let rest = c.subrange(ha.len() as int, c.len() - 1);
        assert(c =~= fn_once_head(tys[0]) + (inner + seq![punct('>')]));
        assert(c =~= ha + (rest + seq![punct('>')]));
        lemma_head_unique(args[0], tys[0], rest + seq![punct('>')], inner + seq![punct('>')]);
        assert(rest =~= inner);
        assert(balanced(tys[0]));
        assert forall|i: int| 0 <= i < tys.drop_first().len() implies balanced(#[trigger] tys.drop_first()[i]) by {
            assert(tys.drop_first()[i] == tys[i + 1]);
        }
        assert forall|i: int| 0 <= i < args.drop_first().len() implies balanced(#[trigger] args.drop_first()[i]) by {
            assert(args.drop_first()[i] == args[i + 1]);
        }
        lemma_apply_order_sensitive(tys.drop_first(), ret, args.drop_first());
        assert forall|i: int| 0 <= i < args.len() implies args[i] == tys[i] by {
            if i > 0 {
                assert(args[i] == args.drop_first()[i - 1]);
                assert(tys[i] == tys.drop_first()[i - 1]);
            }
        }
        assert(args =~= tys);
    } else {
        assert(args =~= tys);
    }
}

/// A declaration with at most one parameter keeps its return type and its
/// body: the chains have no level.
pub proof fn lemma_small_arity_identity(pats: Seq<Seq<TokenV>>, tys: Seq<Seq<TokenV>>, ret: Seq<TokenV>, body: Seq<TokenV>)
    requires
        pats.len() <= 1,
        tys.len() <= 1,
    ensures
        return_chain(tail(tys), ret) == ret,
        body_chain(tail(pats), tail(tys), body) == body,
{
}

/// The body and the return type have one level per parameter after the
/// first, and the level for the `i`-th of them binds, in the body, the
/// parameter with the very type that the return type takes at that level.
pub proof fn lemma_levels_correspond(pats: Seq<Seq<TokenV>>, tys: Seq<Seq<TokenV>>, ret: Seq<TokenV>, body: Seq<TokenV>)
    requires
        pats.len() == tys.len(),
    ensures
        closure_heads(tail(pats), tail(tys)).len() == fn_once_heads(tail(tys)).len(),
        fn_once_heads(tail(tys)).len() == if tys.len() == 0 { 0 } else { tys.len() - 1 },
        forall|i: int| 0 <= i < tail(tys).len() ==> #[trigger] closure_heads(tail(pats), tail(tys))[i]
            == closure_head(pats[i + 1], tys[i + 1]) && fn_once_heads(tail(tys))[i] == fn_once_head(tys[i + 1]),
        return_chain(tail(tys), ret) == concat(fn_once_heads(tail(tys))) + ret + repeat(punct('>'), tail(tys).len()),
        body_chain(tail(pats), tail(tys), body) == concat(closure_heads(tail(pats), tail(tys))) + body
            + repeat(TokenV::Close(Delim::Paren), tail(tys).len()),
{
    lemma_return_chain_levels(tail(tys), ret);
    lemma_body_chain_levels(tail(pats), tail(tys), body);
}

/// Appends `-> Box<dyn FnOnce(ty)` to `out`.
fn push_fn_once_head(out: &mut Vec<Token>, ty: &Vec<Token>)
    ensures
        toks(final(out)@) == toks(old(out)@) + fn_once_head(toks(ty@)),
{
    let head: Vec<Token> = vec![
        Token::Punct('-', true),
        Token::Punct('>', false),
        ident("Box"),
        Token::Punct('<', false),
        ident("dyn"),
        ident("FnOnce"),
        Token::Open(Delim::Paren),
    ];
    assert(toks(head@) =~= arrow() + seq![
        TokenV::Ident("Box"@),
        punct('<'),
        TokenV::Ident("dyn"@),
        TokenV::Ident("FnOnce"@),
        TokenV::Open(Delim::Paren),
    ]);
    extend_tokens(out, &head);
    extend_tokens(out, ty);
    let ghost mid = out@;
    out.push(Token::Close(Delim::Paren));
    assert(toks(out@) =~= toks(mid).push(TokenV::Close(Delim::Paren)));
    assert(toks(out@) =~= toks(old(out)@) + fn_once_head(toks(ty@)));
}

/// Appends `n` copies of the token `t` to `out`.
fn push_repeated(out: &mut Vec<Token>, t: &Token, n: usize)
    ensures
        toks(final(out)@) == toks(old(out)@) + repeat(t@, n as nat),
{
    let mut i: usize = 0;
    while i < n
        invariant
            i <= n,
            toks(out@) == toks(old(out)@) + repeat(t@, i as nat),
        decreases n - i,
    {
        let ghost prev = out@;
        out.push(crate::token::copy_token(t));
        assert(toks(out@) =~= toks(prev).push(t@));
        assert(repeat(t@, (i + 1) as nat) =~= repeat(t@, i as nat).push(t@));
        i = i + 1;
    }
}

/// The return type of the curried function, from the types of all the
/// arguments of the original one (the first is skipped: the curried
/// function takes it itself) and its return type `ret`.
pub fn generate_return_type(types: &Vec<Vec<Token>>, ret: &Vec<Token>) -> (r: Vec<Token>)
    ensures
        toks(r@) == return_chain(tail(streams(types@)), toks(ret@)),
{
    let ghost tys = streams(types@);
    let mut out: Vec<Token> = Vec::new();
    let n = types.len();
    let mut i: usize = 1;
    while i < n
        invariant
            1 <= i,
            n == types@.len(),
            tys == streams(types@),
            i < n ==> toks(out@) == concat(fn_once_heads(tys.subrange(1, i as int))),
            i >= n ==> toks(out@) == concat(fn_once_heads(tail(tys))),
        decreases n - i,
    {
        let ghost prev = out@;
        push_fn_once_head(&mut out, &types[i]);
        proof {
            assert(fn_once_heads(tys.subrange(1, i + 1)) =~= fn_once_heads(tys.subrange(1, i as int)).push(
                fn_once_head(tys[i as int]),
            ));
            lemma_concat_push(fn_once_heads(tys.subrange(1, i as int)), fn_once_head(tys[i as int]));
            if i + 1 >= n {
                assert(tys.subrange(1, i + 1) =~= tail(tys));
            }
        }
        i = i + 1;
    }
    proof {
        if n <= 1 {
            assert(fn_once_heads(tail(tys)) =~= Seq::<Seq<TokenV>>::empty());
            assert(toks(out@) =~= concat(fn_once_heads(tail(tys))));
        }
    }
    extend_tokens(&mut out, ret);
    let levels: usize = if n > 1 { n - 1 } else { 0 };
    push_repeated(&mut out, &Token::Punct('>', false), levels);
    proof {
        lemma_return_chain_levels(tail(tys), toks(ret@));
        assert(toks(out@) =~= return_chain(tail(tys), toks(ret@)));
    }
    out
}

/// Appends `Box::new(move |pat: ty|` to `out`.
fn push_closure_head(out: &mut Vec<Token>, pat: &Vec<Token>, ty: &Vec<Token>)
    ensures
        toks(final(out)@) == toks(old(out)@) + closure_head(toks(pat@), toks(ty@)),
{
    let head: Vec<Token> = vec![
        ident("Box"),
        Token::Punct(':', true),
        Token::Punct(':', false),
        ident("new"),
        Token::Open(Delim::Paren),
        ident("move"),
        Token::Punct('|', false),
    ];
    let colon: Vec<Token> = vec![Token::Punct(':', false)];
    let bar: Vec<Token> = vec![Token::Punct('|', false)];
    assert(toks(colon@) =~= seq![punct(':')]);
    assert(toks(bar@) =~= seq![punct('|')]);
    assert(toks(head@) =~= seq![
        TokenV::Ident("Box"@),
        TokenV::Punct(':', true),
        punct(':'),
        TokenV::Ident("new"@),
        TokenV::Open(Delim::Paren),
        TokenV::Ident("move"@),
        punct('|'),
    ]);
    extend_tokens(out, &head);
    extend_tokens(out, pat);
    extend_tokens(out, &colon);
    extend_tokens(out, ty);
    extend_tokens(out, &bar);
    assert(toks(final(out)@) =~= toks(old(out)@) + closure_head(toks(pat@), toks(ty@)));
}

/// The body of the curried function, from the argument patterns `idents`
/// and types `types` of the original function (the first pair is skipped:
/// the curried function takes it itself) and its body `body`.
pub fn generate_body(idents: &Vec<Vec<Token>>, types: &Vec<Vec<Token>>, body: &Vec<Token>) -> (r: Vec<Token>)
    ensures
        toks(r@) == body_chain(tail(streams(idents@)), tail(streams(types@)), toks(body@)),
{
    let ghost pats = streams(idents@);
    let ghost tys = streams(types@);
    let n: usize = if idents.len() <= types.len() { idents.len() } else { types.len() };
    let mut out: Vec<Token> = Vec::new();
    let mut i: usize = 1;
    while i < n
        invariant
            1 <= i,
            n <= idents@.len(),
            n <= types@.len(),
            n == pair_count(pats, tys),
            pats == streams(idents@),
            tys == streams(types@),
            i <= n ==> toks(out@) == concat(closure_heads(pats.subrange(1, i as int), tys.subrange(1, i as int))),
            i > n ==> out@.len() == 0,
            i <= n || n == 0,
        decreases n - i,
    {
        push_closure_head(&mut out, &idents[i], &types[i]);
        proof {
            let before = closure_heads(pats.subrange(1, i as int), tys.subrange(1, i as int));
            assert(closure_heads(pats.subrange(1, i + 1), tys.subrange(1, i + 1)) =~= before.push(
                closure_head(pats[i as int], tys[i as int]),
            ));
            lemma_concat_push(before, closure_head(pats[i as int], tys[i as int]));
        }
        i = i + 1;
    }
    let levels: usize = if n > 1 { n - 1 } else { 0 };
    proof {
        if n <= 1 {
            assert(closure_heads(tail(pats), tail(tys)) =~= Seq::<Seq<TokenV>>::empty());
            assert(toks(out@) =~= concat(closure_heads(tail(pats), tail(tys))));
        } else {
            assert(closure_heads(pats.subrange(1, n as int), tys.subrange(1, n as int)) =~= closure_heads(
                tail(pats),
                tail(tys),
            ));
        }
        assert(pair_count(tail(pats), tail(tys)) == levels);
    }
    extend_tokens(&mut out, body);
    push_repeated(&mut out, &Token::Close(Delim::Paren), levels);
    proof {
        lemma_body_chain_levels(tail(pats), tail(tys), toks(body@));
        assert(toks(out@) =~= body_chain(tail(pats), tail(tys), toks(body@)));
    }
    out
}

/// A declaration without parameters keeps its return type and body, and
/// still takes no argument.
pub proof fn lemma_zero_arity(d: FnDecl)
    requires
        d.params@.len() == 0,
    ensures
        curried(d) == toks(d.vis@) + seq![TokenV::Ident("fn"@), TokenV::Ident(d.ident@)] + toks(d.generics@)
            + seq![TokenV::Open(Delim::Paren), TokenV::Close(Delim::Paren)] + toks(d.output@)
            + toks(d.where_clause@) + seq![TokenV::Open(Delim::Brace)] + toks(d.body@) + seq![
            TokenV::Close(Delim::Brace),
        ],
{
    let pats = param_pats(d.params@);
    let tys = param_tys(d.params@);
    assert(pats.len() == 0 && tys.len() == 0);
    assert(first_param(pats, tys) =~= Seq::<TokenV>::empty());
    assert(curried(d) =~= toks(d.vis@) + seq![TokenV::Ident("fn"@), TokenV::Ident(d.ident@)] + toks(d.generics@)
        + seq![TokenV::Open(Delim::Paren), TokenV::Close(Delim::Paren)] + toks(d.output@)
        + toks(d.where_clause@) + seq![TokenV::Open(Delim::Brace)] + toks(d.body@) + seq![
        TokenV::Close(Delim::Brace),
    ]);
}

/// Curries a function declaration: the result takes the first parameter
/// and returns a chain of boxed single-call closures, one per further
/// parameter. A declaration with a receiver is refused.
pub fn curry(decl: &FnDecl) -> (r: Result<Vec<Token>, CurryError>)
    ensures
        match r {
            Ok(out) => !has_receiver(decl.params@) && toks(out@) == curried(*decl),
            Err(e) => has_receiver(decl.params@) && e == CurryError::UnsupportedReceiver,
        },
{
    let ghost ps = decl.params@;
    let mut pats: Vec<Vec<Token>> = Vec::new();
    let mut tys: Vec<Vec<Token>> = Vec::new();
    let mut i: usize = 0;
    while i < decl.params.len()
        invariant
            ps == decl.params@,
            i <= ps.len(),
            streams(pats@) == param_pats(ps.subrange(0, i as int)),
            streams(tys@) == param_tys(ps.subrange(0, i as int)),
            forall|j: int| 0 <= j < i ==> !(#[trigger] ps[j] is Receiver),
        decreases ps.len() - i,
    {
        match &decl.params[i] {
            FnParam::Receiver => {
                return Err(CurryError::UnsupportedReceiver);
            },
            FnParam::Typed { pat, ty } => {
                let ghost (pats0, tys0) = (pats@, tys@);
                pats.push(copy_tokens(pat));
                tys.push(copy_tokens(ty));
                assert(streams(pats@) =~= streams(pats0).push(toks(pat@)));
                assert(streams(tys@) =~= streams(tys0).push(toks(ty@)));
                assert(param_pats(ps.subrange(0, i + 1)) =~= param_pats(ps.subrange(0, i as int)).push(toks(pat@)));
                assert(param_tys(ps.subrange(0, i + 1)) =~= param_tys(ps.subrange(0, i as int)).push(toks(ty@)));
            },
        }
        i = i + 1;
    }
    assert(ps.subrange(0, ps.len() as int) =~= ps);
    let ghost (pv, tv) = (streams(pats@), streams(tys@));
    let ret = generate_return_type(&tys, &decl.output);
    let body = generate_body(&pats, &tys, &decl.body);

    let mut out = copy_tokens(&decl.vis);
    push_token(&mut out, ident("fn"));
    push_token(&mut out, Token::Ident(decl.ident.clone()));
    extend_tokens(&mut out, &decl.generics);
    push_token(&mut out, Token::Open(Delim::Paren));
    let ghost before_first = toks(out@);
    if pats.len() > 0 {
        extend_tokens(&mut out, &pats[0]);
        push_token(&mut out, Token::Punct(':', false));
        extend_tokens(&mut out, &tys[0]);
    }
    assert(toks(out@) =~= before_first + first_param(pv, tv));
    push_token(&mut out, Token::Close(Delim::Paren));
    extend_tokens(&mut out, &ret);
    extend_tokens(&mut out, &decl.where_clause);
    push_token(&mut out, Token::Open(Delim::Brace));
    extend_tokens(&mut out, &body);
    push_token(&mut out, Token::Close(Delim::Brace));
    assert(toks(out@) =~= curried(*decl));
    Ok(out)
}

} // verus!
