use bapi_dmm_reader::blocks::{check_rows, get_block_locations, parse_block, Block};
use bapi_dmm_reader::prefabs::ParseError;

#[test]
fn a_block_gives_anchor_rows_and_end() {
    let text = b"(1,2,3) = {\"\nab\ncd\n\"}\nrest";
    let (block, end) = parse_block(text, 0).unwrap();
    assert_eq!(block.anchor, (1, 2, 3));
    assert_eq!(block.rows, vec![b"ab".to_vec(), b"cd".to_vec()]);
    assert_eq!(end, text.len() - 5);
}

#[test]
fn blanks_and_line_ends_are_tolerated() {
    let (block, _) = parse_block(b"( 10, 20 ,3 )  =  {\"\r\n ab \r\n\r\ncd\r\n\"}", 0).unwrap();
    assert_eq!(block.anchor, (10, 20, 3));
    assert_eq!(block.rows, vec![b"ab".to_vec(), b"cd".to_vec()]);
    let (block, _) = parse_block(b"(1,1,1) = {\"\"}", 0).unwrap();
    assert_eq!(block.rows, Vec::<Vec<u8>>::new());
}

#[test]
fn each_structural_error_of_a_block() {
    assert_eq!(parse_block(b"1,2,3) = {\"\n\"}", 0).unwrap_err(), ParseError::BadAnchor);
    assert_eq!(parse_block(b"(1,2) = {\"\n\"}", 0).unwrap_err(), ParseError::BadAnchor);
    assert_eq!(parse_block(b"(1,a,3) = {\"\n\"}", 0).unwrap_err(), ParseError::BadAnchor);
    assert_eq!(parse_block(b"(1,2,3 = {\"\n\"}", 0).unwrap_err(), ParseError::BadAnchor);
    assert_eq!(
        parse_block(b"(99999999999999999999999999,1,1) = {\"\n\"}", 0).unwrap_err(),
        ParseError::BadAnchor
    );
    assert_eq!(parse_block(b"(1,2,3) {\"\n\"}", 0).unwrap_err(), ParseError::MissingEquals);
    assert_eq!(parse_block(b"(1,2,3) = \n", 0).unwrap_err(), ParseError::MissingRows);
    assert_eq!(parse_block(b"(1,2,3) = {", 0).unwrap_err(), ParseError::MissingRows);
    assert_eq!(parse_block(b"(1,2,3) = {\"\nab\n", 0).unwrap_err(), ParseError::UnclosedBlock);
    assert_eq!(parse_block(b"", 0).unwrap_err(), ParseError::BadAnchor);
}

#[test]
fn the_largest_number_of_the_machine_is_an_anchor() {
    let text = format!("({},1,1) = {{\"\na\n\"}}", usize::MAX);
    let (block, _) = parse_block(text.as_bytes(), 0).unwrap();
    assert_eq!(block.anchor, (usize::MAX, 1, 1));
}

#[test]
fn block_locations_are_the_line_starts_with_a_block_head() {
    let first = "(1,1,1) = {\"\na\n\"}\n";
    // the second block does not start its line, the fourth has no rows
    let second = " (2,1,1) = {\"\na\n\"}\n";
    let third = "(3,1,1) = {\"\na\n\"}\n";
    let fourth = "(4,1,1)\n";
    let text = format!("{first}{second}{third}{fourth}");
    assert_eq!(get_block_locations(text.as_bytes()), vec![0, first.len() + second.len()]);
}

#[test]
fn rows_must_be_whole_numbers_of_keys() {
    let block = Block { anchor: (1, 1, 1), rows: vec![b"abcdef".to_vec(), b"abc".to_vec()] };
    assert_eq!(check_rows(&block, 3), Ok(()));
    assert_eq!(check_rows(&block, 1), Ok(()));
    assert_eq!(check_rows(&block, 2), Err(ParseError::MalformedRow));
    assert_eq!(check_rows(&block, 6), Err(ParseError::MalformedRow));
    assert_eq!(check_rows(&block, 0), Err(ParseError::MalformedRow));
    let empty = Block { anchor: (1, 1, 1), rows: vec![] };
    assert_eq!(check_rows(&empty, 5), Ok(()));
}
