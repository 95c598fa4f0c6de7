use vstd::prelude::*;

use crate::token::{concat, delta, ident, punct, push_token, toks, Delim, Token, TokenV};
use crate::CurryError;

verus! {

/// The token is a `|`.
pub open spec fn is_bar(t: TokenV) -> bool {
    t matches TokenV::Punct(c, _) && c == '|'
}

/// The token may stand in a list of names: a name or a comma.
pub open spec fn is_list_token(t: TokenV) -> bool {
    t is Ident || (t matches TokenV::Punct(c, _) && c == ',')
}

/// The first index in `k..hi` that holds a `|`.
pub open spec fn first_bar_from(s: Seq<TokenV>, k: int, hi: int) -> Option<int>
    decreases hi - k,
{
    if k >= hi || k < 0 || hi > s.len() {
        None
    } else if is_bar(s[k]) {
        Some(k)
    } else {
        first_bar_from(s, k + 1, hi)
    }
}

/// The index of the closing delimiter that ends a group, scanning from `k`
/// at depth `d` inside it.
pub open spec fn close_from(s: Seq<TokenV>, k: int, d: int) -> Option<int>
    decreases s.len() - k,
{
    if k >= s.len() || k < 0 {
        None
    } else if s[k] is Close && d == 0 {
        Some(k)
    } else {
        close_from(s, k + 1, d + delta(s[k]))
    }
}

/// All the identifiers of `c`, in order.
pub open spec fn ident_names(c: Seq<TokenV>) -> Seq<Seq<char>>
    decreases c.len(),
{
    if c.len() == 0 {
        Seq::empty()
    } else {
        let rest = ident_names(c.drop_last());
        match c.last() {
            TokenV::Ident(n) => rest.push(n),
            _ => rest,
        }
    }
}

/// The names of `ns` without repetitions, each where it first appears.
pub open spec fn dedup(ns: Seq<Seq<char>>) -> Seq<Seq<char>>
    decreases ns.len(),
{
    if ns.len() == 0 {
        ns
    } else {
        let d = dedup(ns.drop_last());
        if d.contains(ns.last()) {
            d
        } else {
            d.push(ns.last())
        }
    }
}

/// The names bound by the detected form are exactly the names found, none
/// left out and none bound twice.
pub proof fn lemma_dedup_binds_every_name(ns: Seq<Seq<char>>)
    ensures
        forall|x: Seq<char>| #[trigger] dedup(ns).contains(x) <==> ns.contains(x),
        forall|i: int, j: int| 0 <= i < j < dedup(ns).len() ==> dedup(ns)[i] != dedup(ns)[j],
    decreases ns.len(),
{
    if ns.len() > 0 {
        let rest = ns.drop_last();
        lemma_dedup_binds_every_name(rest);
        assert(ns =~= rest.push(ns.last()));
        assert forall|x: Seq<char>| #[trigger] dedup(ns).contains(x) <==> ns.contains(x) by {
            if ns.contains(x) {
                let k = choose|k: int| 0 <= k < ns.len() && ns[k] == x;
                if k < rest.len() {
                    assert(rest[k] == x);
                }
            }
            if rest.contains(x) {
                let k = choose|k: int| 0 <= k < rest.len() && rest[k] == x;
                assert(ns[k] == x);
            }
            if !dedup(rest).contains(ns.last()) {
                assert(dedup(ns) == dedup(rest).push(ns.last()));
                if dedup(ns).contains(x) {
                    let k = choose|k: int| 0 <= k < dedup(ns).len() && dedup(ns)[k] == x;
                    if k < dedup(rest).len() {
                        assert(dedup(rest)[k] == x);
                    }
                }
                if dedup(rest).contains(x) {
                    let k = choose|k: int| 0 <= k < dedup(rest).len() && dedup(rest)[k] == x;
                    assert(dedup(ns)[k] == x);
                }
                assert(dedup(ns)[dedup(rest).len() as int] == ns.last());
            }
        }
    }
}

/// Removing repetitions never lengthens a list, and leaves it as it is
/// exactly when it keeps its length.
pub proof fn lemma_dedup_len(ns: Seq<Seq<char>>)
    ensures
        dedup(ns).len() <= ns.len(),
        dedup(ns).len() == ns.len() ==> dedup(ns) == ns,
    decreases ns.len(),
{
    if ns.len() > 0 {
        lemma_dedup_len(ns.drop_last());
        if dedup(ns).len() == ns.len() {
            assert(ns =~= ns.drop_last().push(ns.last()));
        }
    }
}

/// `move |name|`
pub open spec fn binder(name: Seq<char>) -> Seq<TokenV> {
    seq![TokenV::Ident("move"@), punct('|'), TokenV::Ident(name), punct('|')]
}

/// One closure per name, the first one outermost.
pub open spec fn binders(names: Seq<Seq<char>>) -> Seq<TokenV> {
    concat(names.map_values(|n: Seq<char>| binder(n)))
}

/// The text of each string.
pub open spec fn texts(v: Seq<String>) -> Seq<Seq<char>> {
    v.map_values(|x: String| x@)
}

/// The stream from index `t` on is a call `target(args)` and nothing more:
/// an identifier, then a parenthesized group that ends the stream.
pub open spec fn is_call_at(s: Seq<TokenV>, t: int) -> bool {
    &&& 0 <= t
    &&& t + 2 < s.len()
    &&& s[t] is Ident
    &&& s[t + 1] == TokenV::Open(Delim::Paren)
    &&& close_from(s, t + 2, 0) == Some(s.len() - 1)
}

/// The curried form of an expression, when the stream is exactly one of
/// two forms:
/// - `target(args)`: the bound names are the distinct identifiers of
///   `args`, nested ones included, in the order of their first appearance;
/// - `|names| target(args)`: the list holds names and commas alone, with no
///   name twice, and gives the bound names in its own order, whatever order
///   the call uses them in.
///
/// The result binds the names one by one, the first outermost, then makes
/// the call. `None` for any other stream.
pub open spec fn curried_expression(s: Seq<TokenV>) -> Option<Seq<TokenV>> {
    if s.len() > 0 && is_bar(s[0]) {
        match first_bar_from(s, 1, s.len() as int) {
            None => None,
            Some(q) => {
                let names = ident_names(s.subrange(1, q));
                if (forall|k: int| 1 <= k < q ==> is_list_token(#[trigger] s[k])) && dedup(names) == names
                    && is_call_at(s, q + 1) {
                    Some(binders(names) + s.subrange(q + 1, s.len() as int))
                } else {
                    None
                }
            },
        }
    } else if is_call_at(s, 0) {
        Some(binders(dedup(ident_names(s.subrange(2, s.len() - 1)))) + s)
    } else {
        None
    }
}

fn is_bar_token(t: &Token) -> (r: bool)
    ensures
        r == is_bar(t@),
{
    match t {
        Token::Punct(c, _) => *c == '|',
        _ => false,
    }
}

/// The first index in `k..hi` that holds a `|`.
fn find_bar(input: &Vec<Token>, k: usize, hi: usize) -> (r: Option<usize>)
    requires
        hi <= input@.len(),
    ensures
        match r {
            Some(i) => first_bar_from(toks(input@), k as int, hi as int) == Some(i as int) && k <= i < hi,
            None => first_bar_from(toks(input@), k as int, hi as int) is None,
        },
{
    let ghost s = toks(input@);
    let mut i: usize = k;
    while i < hi
        invariant
            k <= i,
            hi <= input@.len(),
            s == toks(input@),
            first_bar_from(s, k as int, hi as int) == first_bar_from(s, i as int, hi as int),
        decreases hi - i,
    {
        if is_bar_token(&input[i]) {
            return Some(i);
        }
        i = i + 1;
    }
    None
}

/// Every token in `lo..hi` is a name or a comma.
fn is_name_list(input: &Vec<Token>, lo: usize, hi: usize) -> (r: bool)
    requires
        hi <= input@.len(),
    ensures
        r == forall|k: int| lo <= k < hi ==> is_list_token(#[trigger] toks(input@)[k]),
{
    let mut k: usize = lo;
    while k < hi
        invariant
            lo <= k,
            hi <= input@.len(),
            forall|j: int| lo <= j < k ==> is_list_token(#[trigger] toks(input@)[j]),
        decreases hi - k,
    {
        let ok = match &input[k] {
            Token::Ident(_) => true,
            Token::Punct(c, _) => *c == ',',
            _ => false,
        };
        if !ok {
            assert(!is_list_token(toks(input@)[k as int]));
            return false;
        }
        k = k + 1;
    }
    true
}

/// The index of the closing delimiter of the group whose contents begin
/// at `start`.
fn group_close(input: &Vec<Token>, start: usize) -> (r: Option<usize>)
    requires
        start <= input@.len(),
    ensures
        match r {
            None => close_from(toks(input@), start as int, 0) is None,
            Some(e) => close_from(toks(input@), start as int, 0) == Some(e as int) && start <= e < input@.len(),
        },
{
    let ghost s = toks(input@);
    let mut d: usize = 0;
    let mut k: usize = start;
    while k < input.len()
        invariant
            start <= k <= input@.len(),
            s == toks(input@),
            d <= k - start,
            close_from(s, start as int, 0) == close_from(s, k as int, d as int),
        decreases input@.len() - k,
    {
        match &input[k] {
            Token::Close(_) => {
                if d == 0 {
                    return Some(k);
                }
                d = d - 1;
            },
            Token::Open(_) => {
                d = d + 1;
            },
            _ => {},
        }
        k = k + 1;
    }
    None
}

/// The tokens from `t` on are a call `target(args)` and nothing more.
fn call_at(input: &Vec<Token>, t: usize) -> (r: bool)
    ensures
        r == is_call_at(toks(input@), t as int),
{
    let n = input.len();
    if t >= n || n - t < 3 {
        return false;
    }
    let head = matches!(&input[t], Token::Ident(_)) && matches!(&input[t + 1], Token::Open(Delim::Paren));
    assert(toks(input@)[t as int] == input@[t as int]@);
    assert(toks(input@)[t + 1] == input@[t + 1]@);
    if !head {
        return false;
    }
    match group_close(input, t + 2) {
        Some(e) => e == n - 1,
        None => false,
    }
}

/// Appends a copy of the tokens `lo..hi` of `input`.
fn extend_range(out: &mut Vec<Token>, input: &Vec<Token>, lo: usize, hi: usize)
    requires
        lo <= hi <= input@.len(),
    ensures
        toks(final(out)@) == toks(old(out)@) + toks(input@).subrange(lo as int, hi as int),
{
    let ghost s = toks(input@);
    let ghost start = toks(out@);
    let mut k: usize = lo;
    while k < hi
        invariant
            lo <= k <= hi,
            hi <= input@.len(),
            s == toks(input@),
            toks(out@) == start + s.subrange(lo as int, k as int),
        decreases hi - k,
    {
        push_token(out, crate::token::copy_token(&input[k]));
        assert(s.subrange(lo as int, k + 1) =~= s.subrange(lo as int, k as int).push(s[k as int]));
        k = k + 1;
    }
}

/// All the identifiers among the tokens `lo..hi`.
fn collect_idents(input: &Vec<Token>, lo: usize, hi: usize) -> (r: Vec<String>)
    requires
        lo <= hi <= input@.len(),
    ensures
        texts(r@) == ident_names(toks(input@).subrange(lo as int, hi as int)),
{
    let ghost s = toks(input@);
    let mut names: Vec<String> = Vec::new();
    let mut k: usize = lo;
    while k < hi
        invariant
            lo <= k <= hi,
            hi <= input@.len(),
            s == toks(input@),
            texts(names@) == ident_names(s.subrange(lo as int, k as int)),
        decreases hi - k,
    {
        let ghost c = s.subrange(lo as int, k + 1);
        assert(c.drop_last() =~= s.subrange(lo as int, k as int));
        assert(c.last() == input@[k as int]@);
        if let Token::Ident(n) = &input[k] {
            let ghost prev = names@;
            names.push(n.clone());
            assert(texts(names@) =~= texts(prev).push(n@));
        }
        k = k + 1;
    }
    names
}

/// `n` is one of `names`.
fn contains_name(names: &Vec<String>, n: &String) -> (r: bool)
    ensures
        r == texts(names@).contains(n@),
{
    let mut j: usize = 0;
    while j < names.len()
        invariant
            j <= names@.len(),
            forall|m: int| 0 <= m < j ==> names@[m]@ != n@,
        decreases names@.len() - j,
    {
        if names[j] == *n {
            assert(texts(names@)[j as int] == n@);
            return true;
        }
        j = j + 1;
    }
    assert(!texts(names@).contains(n@)) by {
        if texts(names@).contains(n@) {
            let m = choose|m: int| 0 <= m < texts(names@).len() && texts(names@)[m] == n@;
            assert(names@[m]@ == n@);
        }
    }
    false
}

/// The names of `names` without repetitions, each where it first appears.
fn dedup_names(names: &Vec<String>) -> (r: Vec<String>)
    ensures
        texts(r@) == dedup(texts(names@)),
{
    let ghost ns = texts(names@);
    let mut out: Vec<String> = Vec::new();
    let mut i: usize = 0;
    while i < names.len()
        invariant
            i <= names@.len(),
            ns == texts(names@),
            texts(out@) == dedup(ns.subrange(0, i as int)),
        decreases names@.len() - i,
    {
        let ghost sub = ns.subrange(0, i + 1);
        assert(sub.drop_last() =~= ns.subrange(0, i as int));
        assert(sub.last() == names@[i as int]@);
        if !contains_name(&out, &names[i]) {
            let ghost prev = out@;
            out.push(names[i].clone());
            assert(texts(out@) =~= texts(prev).push(names@[i as int]@));
        }
        i = i + 1;
    }
    assert(ns.subrange(0, names@.len() as int) =~= ns);
    out
}

/// The names written as a list: `n1, n2, ..., nk`.
pub open spec fn name_list(ns: Seq<Seq<char>>) -> Seq<TokenV>
    decreases ns.len(),
{
    if ns.len() == 0 {
        Seq::empty()
    } else if ns.len() == 1 {
        seq![TokenV::Ident(ns[0])]
    } else {
        name_list(ns.drop_last()) + seq![punct(','), TokenV::Ident(ns.last())]
    }
}

proof fn lemma_name_list(ns: Seq<Seq<char>>)
    ensures
        ident_names(name_list(ns)) == ns,
        forall|k: int| 0 <= k < name_list(ns).len() ==> is_list_token(#[trigger] name_list(ns)[k]),
    decreases ns.len(),
{
    if ns.len() == 1 {
        let l = name_list(ns);
        assert(l.drop_last() =~= Seq::<TokenV>::empty());
        assert(ident_names(l.drop_last()) == Seq::<Seq<char>>::empty());
        assert(l.last() == TokenV::Ident(ns[0]));
        assert(ident_names(l) =~= ns);
    } else if ns.len() > 1 {
        let prev = name_list(ns.drop_last());
        lemma_name_list(ns.drop_last());
        let mid = prev.push(punct(','));
        let l = name_list(ns);
        assert(l =~= mid.push(TokenV::Ident(ns.last())));
        assert(l.drop_last() =~= mid);
        assert(mid.drop_last() =~= prev);
        assert(ident_names(mid) == ident_names(prev));
        assert(ns =~= ns.drop_last().push(ns.last()));
        assert(ident_names(l) =~= ns);
        assert forall|k: int| 0 <= k < l.len() implies is_list_token(#[trigger] l[k]) by {
            if k < prev.len() {
                assert(l[k] == prev[k]);
            }
        }
    }
}

proof fn lemma_first_bar(s: Seq<TokenV>, k: int, q: int)
    requires
        0 <= k <= q < s.len(),
        is_bar(s[q]),
        forall|j: int| k <= j < q ==> !is_bar(#[trigger] s[j]),
    ensures
        first_bar_from(s, k, s.len() as int) == Some(q),
    decreases q - k,
{
    if k < q {
        lemma_first_bar(s, k + 1, q);
    }
}

proof fn lemma_close_shift(p: Seq<TokenV>, c: Seq<TokenV>, k: int, d: int)
    requires
        0 <= k,
    ensures
        close_from(p + c, p.len() + k, d) == match close_from(c, k, d) {
            Some(i) => Some(i + p.len()),
            None => None,
        },
    decreases c.len() - k,
{
    if k < c.len() {
        assert((p + c)[p.len() + k] == c[k]);
        lemma_close_shift(p, c, k + 1, d + delta(c[k]));
    }
}

/// A list of distinct names before a call binds exactly those names, in the
/// order of the list, whatever order the call uses them in.
pub proof fn lemma_explicit_names_keep_their_order(names: Seq<Seq<char>>, call: Seq<TokenV>)
    requires
        dedup(names) == names,
        is_call_at(call, 0),
    ensures
        curried_expression(seq![punct('|')] + name_list(names) + seq![punct('|')] + call)
            == Some(binders(names) + call),
{
    let l = name_list(names);
    let pre = seq![punct('|')] + l + seq![punct('|')];
    let s = pre + call;
    let q = l.len() + 1int;
    lemma_name_list(names);
    assert(s[0] == punct('|'));
    assert(s[q] == punct('|'));
    assert forall|j: int| 1 <= j < q implies is_list_token(#[trigger] s[j]) && !is_bar(s[j]) by {
        assert(s[j] == l[j - 1]);
    }
    lemma_first_bar(s, 1, q);
    assert(s.subrange(1, q) =~= l);
    lemma_close_shift(pre, call, 2, 0);
    assert(s[q + 1] == call[0]);
    assert(s[q + 2] == call[1]);
    assert(is_call_at(s, q + 1));
    assert(s.subrange(q + 1, s.len() as int) =~= call);
}

/// Appends `move |name|` for each name, in order.
fn push_binders(out: &mut Vec<Token>, names: &Vec<String>)
    ensures
        toks(final(out)@) == toks(old(out)@) + binders(texts(names@)),
{
    let mut i: usize = 0;
    while i < names.len()
        invariant
            i <= names@.len(),
            toks(out@) == toks(old(out)@) + binders(texts(names@.subrange(0, i as int))),
        decreases names@.len() - i,
    {
        let ghost prev = toks(out@);
        push_token(out, ident("move"));
        push_token(out, Token::Punct('|', false));
        push_token(out, Token::Ident(names[i].clone()));
        push_token(out, Token::Punct('|', false));
        proof {
            let ns = texts(names@.subrange(0, i as int));
            let m = names@[i as int]@;
            assert(texts(names@.subrange(0, i + 1)) =~= ns.push(m));
            assert(ns.push(m).map_values(|n: Seq<char>| binder(n)) =~= ns.map_values(
                |n: Seq<char>| binder(n),
            ).push(binder(m)));
            crate::token::lemma_concat_push(ns.map_values(|n: Seq<char>| binder(n)), binder(m));
            assert(toks(out@) =~= prev + binder(m));
        }
        i = i + 1;
    }
    assert(names@.subrange(0, names@.len() as int) =~= names@);
}

/// Curries an expression `target(args)` or `|names| target(args)` into a
/// chain of move closures, one per bound name, whose innermost one makes
/// the call. Any other stream is refused.
pub fn to_curry(input: &Vec<Token>) -> (r: Result<Vec<Token>, CurryError>)
    ensures
        match r {
            Ok(out) => curried_expression(toks(input@)) == Some(toks(out@)),
            Err(e) => curried_expression(toks(input@)) is None && e == CurryError::MalformedExpression,
        },
{
    let ghost s = toks(input@);
    let n = input.len();
    let mut out: Vec<Token> = Vec::new();
    if n > 0 && is_bar_token(&input[0]) {
        assert(s[0] == input@[0]@);
        let q = match find_bar(input, 1, n) {
            Some(q) => q,
            None => {
                return Err(CurryError::MalformedExpression);
            },
        };
        if !is_name_list(input, 1, q) {
            return Err(CurryError::MalformedExpression);
        }
        let names = collect_idents(input, 1, q);
        let distinct = dedup_names(&names);
        proof {
            lemma_dedup_len(texts(names@));
        }
        if distinct.len() != names.len() {
            return Err(CurryError::MalformedExpression);
        }
        if !call_at(input, q + 1) {
            return Err(CurryError::MalformedExpression);
        }
        push_binders(&mut out, &names);
        extend_range(&mut out, input, q + 1, n);
    } else {
        if !call_at(input, 0) {
            return Err(CurryError::MalformedExpression);
        }
        let found = collect_idents(input, 2, n - 1);
        let names = dedup_names(&found);
        push_binders(&mut out, &names);
        extend_range(&mut out, input, 0, n);
        assert(s.subrange(0, n as int) =~= s);
    }
    Ok(out)
}

} // verus!
