use curried::expression::to_curry;
use curried::signature::{curry, generate_body, generate_return_type, FnDecl, FnParam};
use curried::token::{Delim, Token};
use curried::CurryError;
use std::fmt::Display;

fn id(s: &str) -> Token {
    Token::Ident(s.to_string())
}

fn p(c: char) -> Token {
    Token::Punct(c, false)
}

fn joint(c: char) -> Token {
    Token::Punct(c, true)
}

fn open(d: Delim) -> Token {
    Token::Open(d)
}

fn close(d: Delim) -> Token {
    Token::Close(d)
}

fn ty(name: &str) -> Vec<Token> {
    vec![id(name)]
}

fn typed(pat: &str, t: &str) -> FnParam {
    FnParam::Typed { pat: vec![id(pat)], ty: ty(t) }
}

fn render(ts: &[Token]) -> String {
    let mut out = String::new();
    let mut glue = true;
    for t in ts {
        let (text, joins) = match t {
            Token::Ident(s) => (s.clone(), false),
            Token::Literal(s) => (s.clone(), false),
            Token::Punct(c, j) => (c.to_string(), *j),
            Token::Open(Delim::Paren) => ("(".to_string(), false),
            Token::Open(Delim::Brace) => ("{".to_string(), false),
            Token::Open(Delim::Bracket) => ("[".to_string(), false),
            Token::Open(Delim::Invisible) => (String::new(), false),
            Token::Close(Delim::Paren) => (")".to_string(), false),
            Token::Close(Delim::Brace) => ("}".to_string(), false),
            Token::Close(Delim::Bracket) => ("]".to_string(), false),
            Token::Close(Delim::Invisible) => (String::new(), false),
        };
        if !glue {
            out.push(' ');
        }
        out += &text;
        glue = joins;
    }
    out
}

fn add_decl() -> FnDecl {
    FnDecl {
        vis: vec![],
        ident: "add".to_string(),
        generics: vec![],
        params: vec![typed("a", "i32"), typed("b", "i32"), typed("c", "i32")],
        output: vec![joint('-'), p('>'), id("i32")],
        where_clause: vec![],
        body: vec![
            open(Delim::Brace),
            id("a"),
            p('+'),
            id("b"),
            p('+'),
            id("c"),
            close(Delim::Brace),
        ],
    }
}

// The code that `curry` writes for `add_decl`, token for token.
fn add ( a : i32 ) -> Box < dyn FnOnce ( i32 ) -> Box < dyn FnOnce ( i32 ) -> i32 > > { Box :: new ( move | b : i32 | Box :: new ( move | c : i32 | { a + b + c } ) ) }

// The code that `curry` writes for the declaration of `generic_curry`, token for token.
fn concat_string < T > ( a : T ) -> Box < dyn FnOnce ( T ) -> Box < dyn FnOnce ( T ) -> String > > where T : Display + 'static { Box :: new ( move | b : T | Box :: new ( move | c : T | { a . to_string ( ) + & b . to_string ( ) + & c . to_string ( ) } ) ) }

fn to_string_call(v: &mut Vec<Token>, name: &str) {
    v.extend(vec![id(name), p('.'), id("to_string"), open(Delim::Paren), close(Delim::Paren)]);
}

fn map(a: i32, b: i32, c: i32) -> i32 {
    a - b - c
}

fn map_sum(x: i32, y: i32, z: i32) -> i32 {
    x + y - z
}

fn call_tokens(target: &str, args: &[&str]) -> Vec<Token> {
    let mut v = vec![id(target), open(Delim::Paren)];
    for (i, a) in args.iter().enumerate() {
        if i > 0 {
            v.push(p(','));
        }
        v.push(id(a));
    }
    v.push(close(Delim::Paren));
    v
}

#[test]
fn normal_curry() {
    let out = curry(&add_decl()).unwrap();
    assert_eq!(
        render(&out),
        "fn add ( a : i32 ) -> Box < dyn FnOnce ( i32 ) -> Box < dyn FnOnce ( i32 ) -> i32 > > \
         { Box :: new ( move | b : i32 | Box :: new ( move | c : i32 | { a + b + c } ) ) }"
    );
    let i = add(1)(2)(3);
    assert_eq!(i, 6);
}

#[test]
fn generic_curry() {
    let decl = FnDecl {
        vis: vec![],
        ident: "concat_string".to_string(),
        generics: vec![p('<'), id("T"), p('>')],
        params: vec![typed("a", "T"), typed("b", "T"), typed("c", "T")],
        output: vec![joint('-'), p('>'), id("String")],
        where_clause: vec![id("where"), id("T"), p(':'), id("Display"), p('+'), joint('\''), id("static")],
        body: {
            let mut b = vec![open(Delim::Brace)];
            to_string_call(&mut b, "a");
            b.extend(vec![p('+'), p('&')]);
            to_string_call(&mut b, "b");
            b.extend(vec![p('+'), p('&')]);
            to_string_call(&mut b, "c");
            b.push(close(Delim::Brace));
            b
        },
    };
    let out = curry(&decl).unwrap();
    assert_eq!(
        render(&out),
        "fn concat_string < T > ( a : T ) -> Box < dyn FnOnce ( T ) -> Box < dyn FnOnce ( T ) -> String > > \
         where T : Display + 'static { Box :: new ( move | b : T | Box :: new ( move | c : T | \
         { a . to_string ( ) + & b . to_string ( ) + & c . to_string ( ) } ) ) }"
    );
    let f = concat_string(1)(23);
    let s = f(456);
    assert_eq!(s, "123456");
}

#[test]
fn map_curry() {
    let out = to_curry(&call_tokens("map", &["a", "b", "c"])).unwrap();
    assert_eq!(render(&out), "move | a | move | b | move | c | map ( a , b , c )");
    let f = move |a: i32| move |b: i32| move |c: i32| map(a, b, c);
    let i = [1, 2, 3].map(f(1)(2));
    assert_eq!(i, [-2, -3, -4]);
}

#[test]
fn explicit_names_reorder_the_call() {
    let mut input = vec![p('|'), id("a"), p(','), id("b"), p(','), id("c"), p('|')];
    input.extend(call_tokens("map_sum", &["b", "a", "c"]));
    let out = to_curry(&input).unwrap();
    assert_eq!(render(&out), "move | a | move | b | move | c | map_sum ( b , a , c )");
    let f = move |a: i32| move |b: i32| move |c: i32| map_sum(b, a, c);
    let i = [1, 2, 3].map(f(1)(-3));
    assert_eq!(i, [-3, -4, -5]);
}

#[test]
fn detected_names_are_distinct() {
    let input = vec![
        id("f"),
        open(Delim::Paren),
        id("a"),
        p(','),
        id("g"),
        open(Delim::Paren),
        id("x"),
        close(Delim::Paren),
        p(','),
        id("a"),
        p(','),
        id("b"),
        close(Delim::Paren),
    ];
    let out = to_curry(&input).unwrap();
    assert_eq!(render(&out), "move | a | move | g | move | x | move | b | f ( a , g ( x ) , a , b )");
}

#[test]
fn nested_names_are_bound() {
    let input = vec![
        id("f"),
        open(Delim::Paren),
        open(Delim::Paren),
        id("a"),
        close(Delim::Paren),
        close(Delim::Paren),
    ];
    let out = to_curry(&input).unwrap();
    assert_eq!(render(&out), "move | a | f ( ( a ) )");
}

#[test]
fn tokens_around_the_call_are_refused() {
    let mut twice = call_tokens("map", &["a"]);
    twice.extend(vec![open(Delim::Paren), id("b"), close(Delim::Paren)]);
    assert_eq!(to_curry(&twice), Err(CurryError::MalformedExpression));
    let mut added = call_tokens("map", &["a", "b"]);
    added.extend(vec![p('+'), id("c")]);
    assert_eq!(to_curry(&added), Err(CurryError::MalformedExpression));
    let mut led = vec![id("x"), id("y")];
    led.extend(call_tokens("map", &["a"]));
    assert_eq!(to_curry(&led), Err(CurryError::MalformedExpression));
    let mut listed = vec![p('|'), id("a"), p('|'), id("x")];
    listed.extend(call_tokens("map", &["a"]));
    assert_eq!(to_curry(&listed), Err(CurryError::MalformedExpression));
}

#[test]
fn name_list_holds_distinct_names_only() {
    let mut typed_list = vec![p('|'), id("a"), p(':'), id("i32"), p('|')];
    typed_list.extend(call_tokens("f", &["a"]));
    assert_eq!(to_curry(&typed_list), Err(CurryError::MalformedExpression));
    let mut repeated = vec![p('|'), id("a"), p(','), id("a"), p('|')];
    repeated.extend(call_tokens("f", &["a"]));
    assert_eq!(to_curry(&repeated), Err(CurryError::MalformedExpression));
    let mut unused = vec![p('|'), id("a"), p(','), id("b"), p('|')];
    unused.extend(call_tokens("f", &["b"]));
    let out = to_curry(&unused).unwrap();
    assert_eq!(render(&out), "move | a | move | b | f ( b )");
}

#[test]
fn expression_without_group_is_refused() {
    assert_eq!(to_curry(&vec![id("map"), id("a")]), Err(CurryError::MalformedExpression));
    assert_eq!(to_curry(&vec![]), Err(CurryError::MalformedExpression));
}

#[test]
fn expression_without_target_is_refused() {
    let input = vec![open(Delim::Paren), id("a"), close(Delim::Paren)];
    assert_eq!(to_curry(&input), Err(CurryError::MalformedExpression));
    let mut listed = vec![p('|'), id("a"), p('|')];
    listed.extend(vec![open(Delim::Paren), id("a"), close(Delim::Paren)]);
    assert_eq!(to_curry(&listed), Err(CurryError::MalformedExpression));
}

#[test]
fn unterminated_expression_is_refused() {
    let input = vec![id("map"), open(Delim::Paren), id("a")];
    assert_eq!(to_curry(&input), Err(CurryError::MalformedExpression));
    let mut listed = vec![p('|'), id("a"), p(',')];
    listed.extend(call_tokens("map", &["a"]));
    assert_eq!(to_curry(&listed), Err(CurryError::MalformedExpression));
}

#[test]
fn zero_argument_declaration_is_kept() {
    let decl = FnDecl {
        vis: vec![id("pub")],
        ident: "empty_fn".to_string(),
        generics: vec![],
        params: vec![],
        output: vec![],
        where_clause: vec![],
        body: vec![open(Delim::Brace), close(Delim::Brace)],
    };
    let out = curry(&decl).unwrap();
    assert_eq!(render(&out), "pub fn empty_fn ( ) { { } }");
}

#[test]
fn one_argument_declaration_is_kept() {
    let decl = FnDecl {
        vis: vec![],
        ident: "neg".to_string(),
        generics: vec![],
        params: vec![typed("x", "i64")],
        output: vec![joint('-'), p('>'), id("i64")],
        where_clause: vec![],
        body: vec![open(Delim::Brace), p('-'), id("x"), close(Delim::Brace)],
    };
    let out = curry(&decl).unwrap();
    assert_eq!(render(&out), "fn neg ( x : i64 ) -> i64 { { - x } }");
}

#[test]
fn receiver_is_refused() {
    let mut decl = add_decl();
    decl.params.insert(0, FnParam::Receiver);
    assert_eq!(curry(&decl), Err(CurryError::UnsupportedReceiver));
}

#[test]
fn return_type_wraps_in_argument_order() {
    let types = vec![ty("A"), ty("B"), ty("C")];
    let out = generate_return_type(&types, &vec![joint('-'), p('>'), id("R")]);
    assert_eq!(render(&out), "-> Box < dyn FnOnce ( B ) -> Box < dyn FnOnce ( C ) -> R > >");
    let unit = generate_return_type(&types, &vec![]);
    assert_eq!(render(&unit), "-> Box < dyn FnOnce ( B ) -> Box < dyn FnOnce ( C ) > >");
    let single = generate_return_type(&vec![ty("A")], &vec![id("R")]);
    assert_eq!(render(&single), "R");
    let none = generate_return_type(&vec![], &vec![id("R")]);
    assert_eq!(render(&none), "R");
}

#[test]
fn body_binds_in_argument_order() {
    let idents = vec![ty("a"), ty("b"), ty("c")];
    let types = vec![ty("A"), ty("B"), ty("C")];
    let body = vec![open(Delim::Brace), id("z"), close(Delim::Brace)];
    let out = generate_body(&idents, &types, &body);
    assert_eq!(
        render(&out),
        "Box :: new ( move | b : B | Box :: new ( move | c : C | { z } ) )"
    );
    assert_eq!(generate_body(&vec![], &vec![], &body), body);
    assert_eq!(generate_body(&vec![ty("a")], &vec![ty("A")], &body), body);
}
