use bapi_dmm_reader::canonical::serialize;
use bapi_dmm_reader::literal::parse_literal;
use bapi_dmm_reader::model::Literal;

fn num(t: &str) -> Literal {
    Literal::Number(t.as_bytes().to_vec())
}

fn string(t: &str) -> Literal {
    Literal::String(t.as_bytes().to_vec())
}

fn path(t: &str) -> Literal {
    Literal::Path(t.as_bytes().to_vec())
}

fn samples() -> Vec<Literal> {
    vec![
        num("0"),
        num("-12.50"),
        string(""),
        string("meow"),
        string("a, b = c; (d"),
        string("with \\\" quote and \\\\ backslash"),
        path("/obj/item/weapon_2"),
        Literal::File(b"icons/turf/floors.dmi".to_vec()),
        Literal::File(b"".to_vec()),
        Literal::Null,
        Literal::List(vec![]),
        Literal::List(vec![num("1")]),
        Literal::List(vec![num("1"), string("x,y"), Literal::Null, path("/a/b")]),
        Literal::List(vec![Literal::List(vec![]), Literal::List(vec![Literal::List(vec![num("3")])])]),
        Literal::AssocList(vec![(string("a"), num("1"))]),
        Literal::AssocList(vec![
            (string("k=1"), Literal::List(vec![num("1"), num("2")])),
            (path("/obj"), Literal::AssocList(vec![(num("1"), Literal::Null)])),
            (Literal::Null, Literal::File(b"a.ogg".to_vec())),
        ]),
    ]
}

#[test]
fn each_kind_is_written_in_its_canonical_form() {
    assert_eq!(serialize(&num("-1.5")), b"-1.5".to_vec());
    assert_eq!(serialize(&string("meow")), b"\"meow\"".to_vec());
    assert_eq!(serialize(&path("/turf/space")), b"/turf/space".to_vec());
    assert_eq!(serialize(&Literal::File(b"i.dmi".to_vec())), b"'i.dmi'".to_vec());
    assert_eq!(serialize(&Literal::Null), b"null".to_vec());
    assert_eq!(serialize(&Literal::Fallback(b"@@".to_vec())), b"@@".to_vec());
    assert_eq!(serialize(&Literal::List(vec![])), b"list()".to_vec());
    assert_eq!(
        serialize(&Literal::List(vec![num("1"), string("a,b"), Literal::Null])),
        b"list(1,\"a,b\",null)".to_vec()
    );
    assert_eq!(
        serialize(&Literal::AssocList(vec![
            (string("a"), num("1")),
            (string("b"), Literal::List(vec![num("2"), num("3")])),
        ])),
        b"list(\"a\"=1,\"b\"=list(2,3))".to_vec()
    );
}

#[test]
fn parsing_what_was_written_gives_the_literal_back() {
    for literal in samples() {
        let text = serialize(&literal);
        assert_eq!(parse_literal(&text), literal);
    }
}

#[test]
fn writing_what_was_parsed_gives_the_canonical_text_back() {
    let texts: Vec<&[u8]> = vec![
        b"12",
        b"\"meow\"",
        b"/obj/item",
        b"'i.dmi'",
        b"null",
        b"list()",
        b"list(1,2,list(3,\"x\"))",
        b"list(\"a\"=1,/b=null)",
    ];
    for text in texts {
        assert_eq!(serialize(&parse_literal(text)), text.to_vec());
    }
    // white space outside strings is not part of the value
    assert_eq!(serialize(&parse_literal(b" list( 1 , \"a b\" ) ")), b"list(1,\"a b\")".to_vec());
    assert_eq!(serialize(&parse_literal(b"list(\"a\" = 1)")), b"list(\"a\"=1)".to_vec());
}

#[test]
fn a_literal_that_text_cannot_stand_for_does_not_come_back() {
    // an empty list of pairs is written like an empty list
    assert_eq!(parse_literal(&serialize(&Literal::AssocList(vec![]))), Literal::List(vec![]));
    // the text of this string closes early
    let open = string("a\"b");
    assert_eq!(parse_literal(&serialize(&open)), Literal::Fallback(b"\"a\"b\"".to_vec()));
    // digits are a number, whatever they were called
    assert_eq!(parse_literal(&serialize(&Literal::Fallback(b"12".to_vec()))), num("12"));
}
