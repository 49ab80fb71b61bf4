use bapi_dmm_reader::literal::{find_equals, parse_literal, split};
use bapi_dmm_reader::model::Literal;

fn num(t: &str) -> Literal {
    Literal::Number(t.as_bytes().to_vec())
}

fn string(t: &str) -> Literal {
    Literal::String(t.as_bytes().to_vec())
}

fn fallback(t: &str) -> Literal {
    Literal::Fallback(t.as_bytes().to_vec())
}

#[test]
fn numbers_are_kept_as_their_text() {
    assert_eq!(parse_literal(b"12"), num("12"));
    assert_eq!(parse_literal(b"-1.5"), num("-1.5"));
    assert_eq!(parse_literal(b"0"), num("0"));
    assert_eq!(parse_literal(b"  7\t"), num("7"));
}

#[test]
fn text_that_is_almost_a_number_falls_back() {
    assert_eq!(parse_literal(b"1."), fallback("1."));
    assert_eq!(parse_literal(b".5"), fallback(".5"));
    assert_eq!(parse_literal(b"-"), fallback("-"));
    assert_eq!(parse_literal(b"1e5"), fallback("1e5"));
    assert_eq!(parse_literal(b"1.2.3"), fallback("1.2.3"));
    assert_eq!(parse_literal(b"+1"), fallback("+1"));
}

#[test]
fn strings_keep_the_text_between_their_quotes() {
    assert_eq!(parse_literal(b"\"meow\""), string("meow"));
    assert_eq!(parse_literal(b"\"\""), string(""));
    assert_eq!(parse_literal(b"\"a, b = c\""), string("a, b = c"));
}

#[test]
fn an_escaped_quote_does_not_close_a_string() {
    assert_eq!(parse_literal(b"\"a\\\"b\""), string("a\\\"b"));
    assert_eq!(parse_literal(b"\"a\\\\\""), string("a\\\\"));
    // the backslash takes the closing quote along: the string never closes
    assert_eq!(parse_literal(b"\"a\\\""), fallback("\"a\\\""));
    assert_eq!(parse_literal(b"\"a\"b\""), fallback("\"a\"b\""));
    assert_eq!(parse_literal(b"\"open"), fallback("\"open"));
}

#[test]
fn files_paths_and_null() {
    assert_eq!(parse_literal(b"'icons/turf.dmi'"), Literal::File(b"icons/turf.dmi".to_vec()));
    assert_eq!(parse_literal(b"''"), Literal::File(b"".to_vec()));
    assert_eq!(parse_literal(b"'a'b'"), fallback("'a'b'"));
    assert_eq!(parse_literal(b"/obj/item"), Literal::Path(b"/obj/item".to_vec()));
    assert_eq!(parse_literal(b"/"), fallback("/"));
    assert_eq!(parse_literal(b"/obj/it em"), fallback("/obj/it em"));
    assert_eq!(parse_literal(b"null"), Literal::Null);
    assert_eq!(parse_literal(b"nullx"), fallback("nullx"));
    assert_eq!(parse_literal(b""), fallback(""));
}

#[test]
fn lists_of_elements() {
    assert_eq!(parse_literal(b"list()"), Literal::List(vec![]));
    assert_eq!(parse_literal(b"list(  )"), Literal::List(vec![]));
    assert_eq!(parse_literal(b"list(1,2,3)"), Literal::List(vec![num("1"), num("2"), num("3")]));
    assert_eq!(
        parse_literal(b"list(1, \"a,b\", /obj, null)"),
        Literal::List(vec![num("1"), string("a,b"), Literal::Path(b"/obj".to_vec()), Literal::Null])
    );
}

#[test]
fn lists_nest() {
    assert_eq!(
        parse_literal(b"list(list(1,2),list(),\"x\")"),
        Literal::List(vec![
            Literal::List(vec![num("1"), num("2")]),
            Literal::List(vec![]),
            string("x")
        ])
    );
}

#[test]
fn lists_of_pairs() {
    assert_eq!(
        parse_literal(b"list(\"a\" = 1, \"b\" = list(2))"),
        Literal::AssocList(vec![
            (string("a"), num("1")),
            (string("b"), Literal::List(vec![num("2")])),
        ])
    );
    assert_eq!(
        parse_literal(b"list(/obj/a = \"x=y\")"),
        Literal::AssocList(vec![(Literal::Path(b"/obj/a".to_vec()), string("x=y"))])
    );
}

#[test]
fn one_bad_element_is_one_fallback_value() {
    assert_eq!(
        parse_literal(b"list(1, @@, 3)"),
        Literal::List(vec![num("1"), fallback("@@"), num("3")])
    );
    assert_eq!(
        parse_literal(b"list(1,)"),
        Literal::List(vec![num("1"), fallback("")])
    );
    assert_eq!(
        parse_literal(b"list(\"a\" = @, # = 2)"),
        Literal::AssocList(vec![(string("a"), fallback("@")), (fallback("#"), num("2"))])
    );
}

#[test]
fn what_is_no_list_falls_back_as_a_whole() {
    assert_eq!(parse_literal(b"list(1, \"a\" = 2)"), fallback("list(1, \"a\" = 2)"));
    assert_eq!(parse_literal(b"list(1,2"), fallback("list(1,2"));
    assert_eq!(parse_literal(b"list(1),2)"), fallback("list(1),2)"));
    assert_eq!(parse_literal(b"list"), fallback("list"));
    assert_eq!(parse_literal(b"newlist(1)"), fallback("newlist(1)"));
}

#[test]
fn split_cuts_outside_quotes_and_parentheses_only() {
    assert_eq!(
        split(b"a,(b,c),\"d,e\",'f,g',h", b","),
        vec![
            b"a".to_vec(),
            b"(b,c)".to_vec(),
            b"\"d,e\"".to_vec(),
            b"'f,g'".to_vec(),
            b"h".to_vec()
        ]
    );
    assert_eq!(split(b"", b","), vec![b"".to_vec()]);
    assert_eq!(split(b",", b","), vec![b"".to_vec(), b"".to_vec()]);
    assert_eq!(split(b"a;b\nc", b";\n"), vec![b"a".to_vec(), b"b".to_vec(), b"c".to_vec()]);
    assert_eq!(split(b"\"a\\\",b\",c", b","), vec![b"\"a\\\",b\"".to_vec(), b"c".to_vec()]);
    assert_eq!(split(b"a),b", b","), vec![b"a)".to_vec(), b"b".to_vec()]);
}

#[test]
fn find_equals_finds_the_first_one_outside() {
    assert_eq!(find_equals(b"a = b"), 2);
    assert_eq!(find_equals(b"\"a=b\" = c"), 6);
    assert_eq!(find_equals(b"(a=b)"), 5);
    assert_eq!(find_equals(b""), 0);
}
