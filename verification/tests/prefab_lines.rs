use bapi_dmm_reader::model::Literal;
use bapi_dmm_reader::prefabs::{
    detect_tgm, get_prefab_locations, parse_prefab_line, parse_vars, ParseError,
};

fn var(name: &str, value: Literal) -> (Vec<u8>, Literal) {
    (name.as_bytes().to_vec(), value)
}

fn string(t: &str) -> Literal {
    Literal::String(t.as_bytes().to_vec())
}

fn num(t: &str) -> Literal {
    Literal::Number(t.as_bytes().to_vec())
}

#[test]
fn a_line_gives_key_prefabs_and_end() {
    let text = b"\"ab\" = (/obj/item{dir = 4},\n /turf/open, /area/space)\nrest";
    let line = parse_prefab_line(text, 0).unwrap();
    assert_eq!(line.key, b"ab".to_vec());
    assert_eq!(line.prefabs.len(), 3);
    assert_eq!(line.prefabs[0].path, b"/obj/item".to_vec());
    assert_eq!(line.prefabs[0].vars, Some(b"{dir = 4}".to_vec()));
    assert_eq!(line.prefabs[1].path, b"/turf/open".to_vec());
    assert_eq!(line.prefabs[1].vars, None);
    assert_eq!(line.prefabs[2].path, b"/area/space".to_vec());
    assert_eq!(line.end, text.len() - 5);
}

#[test]
fn a_line_can_start_anywhere() {
    let text = b"xx\n\"b\" = (/turf/a)";
    let line = parse_prefab_line(text, 3).unwrap();
    assert_eq!(line.key, b"b".to_vec());
    assert_eq!(line.end, text.len());
    assert_eq!(parse_prefab_line(text, 0).unwrap_err(), ParseError::BadKey);
    assert_eq!(parse_prefab_line(text, 100).unwrap_err(), ParseError::BadKey);
}

#[test]
fn a_brace_in_a_string_does_not_close_the_block() {
    let line = parse_prefab_line(b"\"a\" = (/obj{name = \"}\"; x = list(1,2)})", 0).unwrap();
    assert_eq!(line.prefabs[0].vars, Some(b"{name = \"}\"; x = list(1,2)}".to_vec()));
}

#[test]
fn each_structural_error_of_a_line() {
    assert_eq!(parse_prefab_line(b"aaa\" = (/turf)", 0).unwrap_err(), ParseError::BadKey);
    assert_eq!(parse_prefab_line(b"\"AAA\" = (/turf/x)", 0).unwrap_err(), ParseError::BadKey);
    assert_eq!(parse_prefab_line(b"\"\" = (/turf/x)", 0).unwrap_err(), ParseError::BadKey);
    assert_eq!(parse_prefab_line(b"\"aaa", 0).unwrap_err(), ParseError::BadKey);
    assert_eq!(parse_prefab_line(b"\"aaa\" (/turf/x)", 0).unwrap_err(), ParseError::MissingEquals);
    assert_eq!(parse_prefab_line(b"\"aaa\" = /turf/x", 0).unwrap_err(), ParseError::MissingParen);
    assert_eq!(parse_prefab_line(b"\"aaa\" = (turf/x)", 0).unwrap_err(), ParseError::BadPath);
    assert_eq!(parse_prefab_line(b"\"aaa\" = (/)", 0).unwrap_err(), ParseError::BadPath);
    assert_eq!(parse_prefab_line(b"\"aaa\" = (/turf/x,)", 0).unwrap_err(), ParseError::BadPath);
    assert_eq!(
        parse_prefab_line(b"\"aaa\" = (/turf/x{name = 1)", 0).unwrap_err(),
        ParseError::UnclosedVars
    );
    assert_eq!(
        parse_prefab_line(b"\"aaa\" = (/turf/x", 0).unwrap_err(),
        ParseError::UnclosedPrefabs
    );
    assert_eq!(
        parse_prefab_line(b"\"aaa\" = (/turf/x;/area/y)", 0).unwrap_err(),
        ParseError::BadSeparator
    );
}

#[test]
fn locations_are_the_line_starts_with_an_entry_head() {
    let first = "\"a\" = (/turf/x)\n";
    // "b" does not start its line
    let second = " \"b\" = (/turf/y)\n";
    let third = "\"c\" = (\n/turf/z{s = \"\n";
    // "d" stands inside a string, but it starts a line
    let fourth = "\"d\" = (\"})\n\"e\"\n";
    let text = format!("{first}{second}{third}{fourth}");
    let c = first.len() + second.len();
    let d = c + third.len();
    assert_eq!(get_prefab_locations(text.as_bytes()), vec![0, c, d]);
    assert_eq!(get_prefab_locations(b""), Vec::<usize>::new());
}

#[test]
fn the_layout_is_told_by_the_first_entry() {
    assert!(detect_tgm(b"\"a\" = (\n/turf/x)\n"));
    assert!(detect_tgm(b"\"a\" = ( \t\r\n/turf/x)\n"));
    assert!(detect_tgm(b"//comment\n\n\"a\" = (\n/turf/x)\n"));
    assert!(!detect_tgm(b"\"a\" = (/turf/x)\n"));
    assert!(!detect_tgm(b"//comment\n\"a\" = (/turf/x)\n"));
    assert!(!detect_tgm(b"//comment without line end"));
    assert!(!detect_tgm(b""));
    assert!(!detect_tgm(b"(1,1,1) = {\"\na\n\"}"));
}

#[test]
fn variables_in_their_order() {
    assert_eq!(parse_vars(b"{name = \"meow\"}"), Ok(vec![var("name", string("meow"))]));
    assert_eq!(
        parse_vars(b"{name = \"a\"; dir = 4; icon = 'i.dmi'}"),
        Ok(vec![
            var("name", string("a")),
            var("dir", num("4")),
            var("icon", Literal::File(b"i.dmi".to_vec())),
        ])
    );
    assert_eq!(
        parse_vars(b"{\n\tname = \"a\";\n\tdir = 4\n\t}"),
        Ok(vec![var("name", string("a")), var("dir", num("4"))])
    );
    assert_eq!(
        parse_vars(b"{a = 1, b = 2}"),
        Ok(vec![var("a", num("1")), var("b", num("2"))])
    );
    assert_eq!(parse_vars(b"{}"), Ok(vec![]));
    assert_eq!(parse_vars(b"{ ; \n }"), Ok(vec![]));
}

#[test]
fn separators_inside_a_value_do_not_cut_it() {
    assert_eq!(
        parse_vars(b"{desc = \"a;b,c\nd\"; l = list(1,2); x = 1}"),
        Ok(vec![
            var("desc", string("a;b,c\nd")),
            var("l", Literal::List(vec![num("1"), num("2")])),
            var("x", num("1")),
        ])
    );
}

#[test]
fn one_bad_value_degrades_alone() {
    assert_eq!(
        parse_vars(b"{name = \"ok\"; icon = @bad@; dir = 2}"),
        Ok(vec![
            var("name", string("ok")),
            var("icon", Literal::Fallback(b"@bad@".to_vec())),
            var("dir", num("2")),
        ])
    );
    let line = parse_prefab_line(b"\"a\" = (/obj/x{v = @@},/obj/y{w = 1})", 0).unwrap();
    assert_eq!(
        parse_vars(line.prefabs[0].vars.as_ref().unwrap()),
        Ok(vec![var("v", Literal::Fallback(b"@@".to_vec()))])
    );
    assert_eq!(parse_vars(line.prefabs[1].vars.as_ref().unwrap()), Ok(vec![var("w", num("1"))]));
}

#[test]
fn what_is_no_variable_fails_the_block() {
    assert_eq!(parse_vars(b"{name}"), Err(ParseError::BadVariable));
    assert_eq!(parse_vars(b"{= 4}"), Err(ParseError::BadVariable));
    assert_eq!(parse_vars(b"{na me = 4}"), Err(ParseError::BadVariable));
    assert_eq!(parse_vars(b"{a = 1; b}"), Err(ParseError::BadVariable));
    assert_eq!(parse_vars(b"name = 1"), Err(ParseError::UnclosedVars));
    assert_eq!(parse_vars(b"{"), Err(ParseError::UnclosedVars));
    assert_eq!(parse_vars(b""), Err(ParseError::UnclosedVars));
}
