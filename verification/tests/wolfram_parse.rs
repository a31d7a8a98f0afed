use sxo::wexpr::{WAtom, WExpr};
use sxo::wolfram_parse::{lower_children, lower_node, lower_root, mathematica_source, offsets_fit, slice};
use sxo::wolfram_tree::{GreenChild, GreenLeaf, GreenNode, WolframElement as E, WolframToken as T};

fn leaf(kind: T, length: u32) -> GreenChild {
    GreenChild::Leaf(GreenLeaf { kind, length })
}
fn node(kind: E, byte_length: u32, children: Vec<GreenChild>) -> GreenChild {
    GreenChild::Node(GreenNode { kind, byte_length, children })
}
fn root(children: Vec<GreenChild>) -> GreenNode {
    let n: u32 = children
        .iter()
        .map(|c| match c {
            GreenChild::Leaf(l) => l.length,
            GreenChild::Node(n) => n.byte_length,
        })
        .sum();
    GreenNode { kind: E::Root, byte_length: n, children }
}
fn lit(n: u32) -> GreenChild {
    node(E::Literal, n, vec![leaf(T::Other("Number".to_string()), n)])
}
fn ident(n: u32) -> GreenChild {
    node(E::Symbol, n, vec![leaf(T::Identifier, n)])
}
fn ws() -> GreenChild {
    leaf(T::Whitespace, 1)
}
fn sym(s: &str) -> WExpr {
    WExpr::symbol(s.to_string())
}
fn num(n: i64) -> WExpr {
    WExpr::small_int(n)
}
fn call(h: &str, args: Vec<WExpr>) -> WExpr {
    WExpr::call(h.to_string(), args)
}
fn parse(tree: &GreenNode, src: &str) -> Result<WExpr, String> {
    assert!(offsets_fit(tree));
    lower_root(tree, src).map_err(|e| e.message)
}
fn binary(op: T, left: GreenChild, right: GreenChild, len: u32) -> GreenChild {
    node(E::BinaryExpr, len, vec![left, ws(), leaf(op, 1), ws(), right])
}

fn sin_tree() -> GreenNode {
    // Sin[x]
    let args = node(E::Arguments, 3, vec![leaf(T::Other("LeftBracket".to_string()), 1), ident(1), leaf(T::Other("RightBracket".to_string()), 1)]);
    root(vec![node(E::Call, 6, vec![ident(3), args])])
}

#[test]
fn parse_math_parse_sin() {
    assert_eq!(parse(&sin_tree(), "Sin[x]").unwrap(), call("Sin", vec![sym("x")]));
}

#[test]
fn parse_parse_sin() {
    let e = parse(&sin_tree(), "Sin[x]").unwrap();
    assert_eq!(e, call("Sin", vec![sym("x")]));
}

#[test]
fn parse_plus_times() {
    // 1 + 2 * 3
    let inner = binary(T::Times, lit(1), lit(1), 5);
    let tree = root(vec![binary(T::Plus, lit(1), inner, 9)]);
    assert_eq!(
        parse(&tree, "1 + 2 * 3").unwrap(),
        call("Plus", vec![num(1), call("Times", vec![num(2), num(3)])])
    );
}

fn compound_tree() -> GreenNode {
    // a; b
    root(vec![node(E::BinaryExpr, 4, vec![ident(1), leaf(T::Semicolon, 1), ws(), ident(1)])])
}

#[test]
fn parse_math_parse_compound_expression() {
    assert_eq!(parse(&compound_tree(), "a; b").unwrap(), call("CompoundExpression", vec![sym("a"), sym("b")]));
}

#[test]
fn parse_parse_compound_expression() {
    let w = parse(&compound_tree(), "a; b").unwrap();
    assert_eq!(w, call("CompoundExpression", vec![sym("a"), sym("b")]));
}

#[test]
fn parse_list_skips_error_nodes() {
    // {1, 2}
    let tree = root(vec![node(
        E::List,
        6,
        vec![
            leaf(T::Other("LeftBrace".to_string()), 1),
            lit(1),
            leaf(T::Other("Comma".to_string()), 1),
            node(E::Error, 1, vec![]),
            lit(1),
            leaf(T::Other("RightBrace".to_string()), 1),
        ],
    )]);
    assert_eq!(parse(&tree, "{1, 2}").unwrap(), WExpr::List(vec![num(1), num(2)]));
}

#[test]
fn root_returns_last_statement() {
    // 1 + 2; 3 * 4 as two top-level nodes separated by a semicolon leaf
    let tree = root(vec![binary(T::Plus, lit(1), lit(1), 5), leaf(T::Semicolon, 1), ws(), binary(T::Times, lit(1), lit(1), 5)]);
    assert_eq!(parse(&tree, "1 + 2; 3 * 4").unwrap(), call("Times", vec![num(3), num(4)]));
}

#[test]
fn empty_root_is_an_error() {
    assert_eq!(parse(&root(vec![ws()]), " ").unwrap_err(), "mathematica(oak): empty root");
    assert_eq!(parse(&root(vec![node(E::Error, 1, vec![])]), "?").unwrap_err(), "mathematica(oak): empty root");
}

#[test]
fn literals_numbers_and_strings() {
    assert_eq!(parse(&root(vec![lit(20)]), "99999999999999999999").unwrap(), WExpr::number(sxo::number::Number::Integer("99999999999999999999".to_string())));
    assert_eq!(parse(&root(vec![lit(3)]), "2.5").unwrap(), WExpr::number(sxo::number::Number::Machine("2.5".to_string())));
    assert_eq!(parse(&root(vec![lit(6)]), "\"hi\"  ").unwrap(), WExpr::Atom(WAtom::String("hi".to_string())));
    assert_eq!(parse(&root(vec![lit(3)]), "abc").unwrap_err(), "mathematica(oak): bad literal `abc`");
}

#[test]
fn spans_off_the_source_or_inside_a_character_fail() {
    assert_eq!(parse(&root(vec![ident(10)]), "x").unwrap_err(), "mathematica(oak): bad span 0..10");
    assert_eq!(parse(&root(vec![ident(1)]), "\u{3b1}").unwrap_err(), "mathematica(oak): bad span 0..1");
    assert_eq!(parse(&root(vec![ident(2)]), "\u{3b1}").unwrap(), sym("\u{3b1}"));
}

#[test]
fn prefix_and_postfix_operators() {
    let minus = root(vec![node(E::PrefixExpr, 2, vec![leaf(T::Minus, 1), ident(1)])]);
    assert_eq!(parse(&minus, "-x").unwrap(), call("Times", vec![num(-1), sym("x")]));
    let not = root(vec![node(E::PrefixExpr, 2, vec![leaf(T::Factorial, 1), ident(1)])]);
    assert_eq!(parse(&not, "!p").unwrap(), call("Not", vec![sym("p")]));
    let plus = root(vec![node(E::PrefixExpr, 2, vec![leaf(T::Plus, 1), ident(1)])]);
    assert_eq!(parse(&plus, "+x").unwrap_err(), "mathematica(oak): unsupported prefix Plus");
    let bare = root(vec![node(E::PrefixExpr, 1, vec![leaf(T::Minus, 1)])]);
    assert_eq!(parse(&bare, "-").unwrap_err(), "mathematica(oak): unsupported prefix Minus");
    let fact = root(vec![node(E::PostfixExpr, 2, vec![lit(1), leaf(T::Factorial, 1)])]);
    assert_eq!(parse(&fact, "5!").unwrap(), call("Factorial", vec![num(5)]));
    let func = root(vec![node(E::PostfixExpr, 2, vec![ident(1), leaf(T::Ampersand, 1)])]);
    assert_eq!(parse(&func, "#&").unwrap(), call("Function", vec![sym("#")]));
    let empty = root(vec![node(E::PostfixExpr, 1, vec![leaf(T::Ampersand, 1)])]);
    assert_eq!(parse(&empty, "&").unwrap_err(), "mathematica(oak): malformed PostfixExpr");
}

#[test]
fn binary_operator_forms() {
    let at = root(vec![node(E::BinaryExpr, 3, vec![ident(1), leaf(T::At, 1), ident(1)])]);
    assert_eq!(parse(&at, "f@x").unwrap(), call("f", vec![sym("x")]));
    let post = root(vec![node(E::BinaryExpr, 4, vec![ident(1), leaf(T::SlashSlash, 2), ident(1)])]);
    assert_eq!(parse(&post, "x//f").unwrap(), call("f", vec![sym("x")]));
    let apply1 = root(vec![node(E::BinaryExpr, 5, vec![ident(1), leaf(T::ApplyLevelOperator, 3), ident(1)])]);
    assert_eq!(parse(&apply1, "f@@@l").unwrap(), call("Apply", vec![sym("f"), sym("l"), WExpr::List(vec![num(1)])]));
    let rule = root(vec![node(E::BinaryExpr, 4, vec![ident(1), leaf(T::Arrow, 2), lit(1)])]);
    assert_eq!(parse(&rule, "x->1").unwrap(), call("Rule", vec![sym("x"), num(1)]));
    let set = root(vec![node(E::BinaryExpr, 3, vec![ident(1), leaf(T::Assign, 1), lit(1)])]);
    assert_eq!(parse(&set, "x=5").unwrap(), call("Set", vec![sym("x"), num(5)]));
    let ne = root(vec![node(E::BinaryExpr, 4, vec![ident(1), leaf(T::NotEqual, 2), ident(1)])]);
    assert_eq!(parse(&ne, "a!=b").unwrap(), call("Unequal", vec![sym("a"), sym("b")]));
    let minus = root(vec![node(E::BinaryExpr, 3, vec![ident(1), leaf(T::Minus, 1), ident(1)])]);
    assert_eq!(parse(&minus, "a-b").unwrap(), call("Subtract", vec![sym("a"), sym("b")]));
}

#[test]
fn binary_errors() {
    let odd = root(vec![node(E::BinaryExpr, 3, vec![ident(1), leaf(T::Other("Question".to_string()), 1), ident(1)])]);
    assert_eq!(parse(&odd, "a?b").unwrap_err(), "mathematica(oak): unsupported binary Question");
    let half = root(vec![node(E::BinaryExpr, 2, vec![ident(1), leaf(T::Plus, 1)])]);
    assert_eq!(parse(&half, "a+").unwrap_err(), "mathematica(oak): malformed BinaryExpr");
    let lead = root(vec![node(E::BinaryExpr, 2, vec![leaf(T::Plus, 1), ident(1)])]);
    assert_eq!(parse(&lead, "+a").unwrap_err(), "mathematica(oak): malformed BinaryExpr");
}

#[test]
fn call_forms() {
    let lb = || leaf(T::Other("LeftBracket".to_string()), 1);
    let rb = || leaf(T::Other("RightBracket".to_string()), 1);
    // List[1, 2]
    let list = root(vec![node(
        E::Call,
        10,
        vec![ident(4), node(E::Arguments, 6, vec![lb(), lit(1), leaf(T::Other("Comma".to_string()), 1), ws(), lit(1), rb()])],
    )]);
    assert_eq!(parse(&list, "List[1, 2]").unwrap(), WExpr::List(vec![num(1), num(2)]));
    // f[1][2]
    let curried = root(vec![node(
        E::Call,
        7,
        vec![ident(1), node(E::Arguments, 3, vec![lb(), lit(1), rb()]), node(E::Arguments, 3, vec![lb(), lit(1), rb()])],
    )]);
    assert_eq!(
        parse(&curried, "f[1][2]").unwrap(),
        WExpr::Call { head: Box::new(call("f", vec![num(1)])), args: vec![num(2)] }
    );
    // head from an identifier leaf, no bracket group
    let bare = root(vec![node(E::Call, 3, vec![leaf(T::Identifier, 3)])]);
    assert_eq!(parse(&bare, "foo").unwrap(), call("foo", vec![]));
    let headless = root(vec![node(E::Call, 2, vec![node(E::Arguments, 2, vec![lb(), rb()])])]);
    assert_eq!(parse(&headless, "[]").unwrap_err(), "mathematica(oak): call missing head");
}

#[test]
fn expression_and_stray_nodes() {
    let wrapped = root(vec![node(E::Expression, 2, vec![ws(), ident(1)])]);
    assert_eq!(parse(&wrapped, " y").unwrap(), sym("y"));
    let empty = root(vec![node(E::Expression, 1, vec![ws()])]);
    assert_eq!(parse(&empty, " ").unwrap_err(), "mathematica(oak): empty Expression");
    let args = root(vec![node(E::Arguments, 2, vec![])]);
    assert_eq!(parse(&args, "[]").unwrap_err(), "mathematica(oak): unexpected Arguments");
    let err = GreenNode { kind: E::Error, byte_length: 1, children: vec![] };
    assert_eq!(lower_node(&err, "?", 0).unwrap_err().message, "mathematica(oak): error node");
}

#[test]
fn source_is_trimmed_and_must_not_be_empty() {
    assert_eq!(mathematica_source("  x + 1 \n").unwrap(), "x + 1");
    assert_eq!(mathematica_source(" \t ").unwrap_err().message, "mathematica: empty input");
}

#[test]
fn slices_and_children() {
    assert_eq!(slice("abc", 1, 2).unwrap(), "bc");
    assert_eq!(slice("abc", 2, 5).unwrap_err().message, "mathematica(oak): bad span 2..7");
    let cs = vec![lit(1), leaf(T::Other("Comma".to_string()), 1), node(E::Error, 1, vec![]), lit(1)];
    assert_eq!(lower_children(&cs, "1,?2", 0, true).unwrap(), vec![num(1), num(2)]);
    assert_eq!(lower_children(&cs, "1,?2", 0, false).unwrap_err().message, "mathematica(oak): error node");
}
