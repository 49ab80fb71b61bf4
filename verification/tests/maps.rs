use bapi_dmm_reader::commands::Command;
use bapi_dmm_reader::load::{build_commands, LoadOptions};
use bapi_dmm_reader::map::{parse_map, KeyEntry};
use bapi_dmm_reader::model::{Literal, Prefab};
use bapi_dmm_reader::prefabs::ParseError;

const PLAIN: LoadOptions = LoadOptions { no_changeturf: false, place_on_top: false, new_z: false };

fn sorted(mut commands: Vec<Command>) -> Vec<Command> {
    commands.sort_by_key(|c| match *c {
        Command::CreateArea { loc, prefab, .. } => (loc, 0, prefab),
        Command::CreateTurf { loc, prefab, .. } => (loc, 1, prefab),
        Command::CreateAtom { loc, prefab } => (loc, 2, prefab),
    });
    commands
}

#[test]
fn one_tile_with_a_turf_and_an_area() {
    let text = b"\"aaa\" = (/turf/space{name=\"meow\"}, /area/space)\n\n(1,1,1) = {\"\naaa\n\"}\n";
    let map = parse_map(text).unwrap();
    assert_eq!(map.key_width, 3);
    assert_eq!(map.keys, vec![KeyEntry { key: b"aaa".to_vec(), first: 0, count: 2 }]);
    assert_eq!(
        map.prefabs,
        vec![
            Prefab {
                path: b"/turf/space".to_vec(),
                vars: Some(vec![(b"name".to_vec(), Literal::String(b"meow".to_vec()))]),
            },
            Prefab { path: b"/area/space".to_vec(), vars: None },
        ]
    );
    assert_eq!(map.blocks.len(), 1);
    assert_eq!(map.blocks[0].anchor, (1, 1, 1));
    assert_eq!(map.blocks[0].rows, vec![b"aaa".to_vec()]);
    let commands = build_commands(&map, PLAIN).unwrap();
    assert_eq!(
        commands,
        vec![
            Command::CreateTurf {
                loc: (1, 1, 1),
                prefab: 0,
                no_changeturf: false,
                place_on_top: false
            },
            Command::CreateArea { loc: (1, 1, 1), prefab: 1, new_z: false },
        ]
    );
}

#[test]
fn a_three_by_three_block_is_nine_tiles_in_both_layouts() {
    let dense = b"\"aaa\" = (/turf/space,/area/space)\n\n(1,1,1) = {\"\naaaaaaaaa\naaaaaaaaa\naaaaaaaaa\n\"}\n";
    let tgm = b"\"aaa\" = (\n/turf/space,\n/area/space)\n\n(1,1,1) = {\"\naaa\naaa\naaa\n\"}\n(2,1,1) = {\"\naaa\naaa\naaa\n\"}\n(3,1,1) = {\"\naaa\naaa\naaa\n\"}\n";
    let dense_map = parse_map(dense).unwrap();
    let tgm_map = parse_map(tgm).unwrap();
    assert_eq!(dense_map.blocks.len(), 1);
    assert_eq!(tgm_map.blocks.len(), 3);
    assert_eq!(dense_map.keys, tgm_map.keys);
    assert_eq!(dense_map.prefabs, tgm_map.prefabs);
    let dense_commands = build_commands(&dense_map, PLAIN).unwrap();
    let tgm_commands = build_commands(&tgm_map, PLAIN).unwrap();
    assert_eq!(dense_commands.len(), 18);
    assert_eq!(sorted(dense_commands.clone()), sorted(tgm_commands));
    let mut tiles: Vec<(usize, usize, usize)> = dense_commands
        .iter()
        .filter_map(|c| match *c {
            Command::CreateTurf { loc, prefab: 0, .. } => Some(loc),
            _ => None,
        })
        .collect();
    tiles.sort();
    let mut expected = vec![];
    for x in 1..=3 {
        for y in 1..=3 {
            expected.push((x, y, 1));
        }
    }
    assert_eq!(tiles, expected);
}

#[test]
fn the_same_content_parses_alike_in_both_layouts() {
    let dense = b"\"aa\" = (/obj/item{name = \"x\"; dir = 4},/turf/open,/area/a)\n\"ab\" = (/turf/closed,/area/a)\n";
    let tgm = b"//MAP CONVERTED\n\"aa\" = (\n/obj/item{\n\tname = \"x\";\n\tdir = 4\n\t},\n/turf/open,\n/area/a)\n\"ab\" = (\n/turf/closed,\n/area/a)\n";
    let dense_map = parse_map(dense).unwrap();
    let tgm_map = parse_map(tgm).unwrap();
    assert_eq!(dense_map.keys, tgm_map.keys);
    assert_eq!(dense_map.prefabs, tgm_map.prefabs);
    assert_eq!(dense_map.key_width, 2);
    assert_eq!(dense_map.prefabs.len(), 5);
    assert_eq!(dense_map.keys[1], KeyEntry { key: b"ab".to_vec(), first: 3, count: 2 });
}

#[test]
fn rows_run_down_from_the_top_and_columns_to_the_right() {
    let text = b"\"aaa\" = (/turf/a)\n\"aab\" = (/turf/b)\n\"aac\" = (/turf/c)\n\"aad\" = (/turf/d)\n(5,7,2) = {\"\naaaaab\naacaad\n\"}\n";
    let map = parse_map(text).unwrap();
    let commands = build_commands(&map, LoadOptions { no_changeturf: true, place_on_top: true, new_z: true }).unwrap();
    let turf = |loc, prefab| Command::CreateTurf { loc, prefab, no_changeturf: true, place_on_top: true };
    assert_eq!(
        commands,
        vec![turf((5, 8, 2), 0), turf((6, 8, 2), 1), turf((5, 7, 2), 2), turf((6, 7, 2), 3)]
    );
}

#[test]
fn the_command_goes_by_the_type_path() {
    let text = b"\"a\" = (/obj/item,/mob/living,/turf,/turf/open,/turfy,/area,/area/x,/areas)\n(1,1,1) = {\"\na\n\"}\n";
    let map = parse_map(text).unwrap();
    let commands = build_commands(&map, LoadOptions { no_changeturf: false, place_on_top: true, new_z: true }).unwrap();
    let loc = (1, 1, 1);
    assert_eq!(
        commands,
        vec![
            Command::CreateAtom { loc, prefab: 0 },
            Command::CreateAtom { loc, prefab: 1 },
            Command::CreateTurf { loc, prefab: 2, no_changeturf: false, place_on_top: true },
            Command::CreateTurf { loc, prefab: 3, no_changeturf: false, place_on_top: true },
            Command::CreateAtom { loc, prefab: 4 },
            Command::CreateArea { loc, prefab: 5, new_z: true },
            Command::CreateArea { loc, prefab: 6, new_z: true },
            Command::CreateAtom { loc, prefab: 7 },
        ]
    );
}

#[test]
fn a_bad_value_does_not_fail_the_map() {
    let text = b"\"a\" = (/obj/x{v = @@; w = 1},/obj/y{z = \"s\"})\n\"b\" = (/turf/t{n = 2})\n(1,1,1) = {\"\nab\n\"}\n";
    let map = parse_map(text).unwrap();
    assert_eq!(
        map.prefabs[0].vars,
        Some(vec![
            (b"v".to_vec(), Literal::Fallback(b"@@".to_vec())),
            (b"w".to_vec(), Literal::Number(b"1".to_vec())),
        ])
    );
    assert_eq!(map.prefabs[1].vars, Some(vec![(b"z".to_vec(), Literal::String(b"s".to_vec()))]));
    assert_eq!(map.prefabs[2].vars, Some(vec![(b"n".to_vec(), Literal::Number(b"2".to_vec()))]));
    assert_eq!(build_commands(&map, PLAIN).unwrap().len(), 3);
}

#[test]
fn each_error_of_a_map() {
    assert_eq!(parse_map(b"").unwrap_err(), ParseError::KeyWidth);
    assert_eq!(parse_map(b"(1,1,1) = {\"\na\n\"}\n").unwrap_err(), ParseError::KeyWidth);
    assert_eq!(
        parse_map(b"\"a\" = (/turf/x)\n\"bb\" = (/turf/y)\n").unwrap_err(),
        ParseError::KeyWidth
    );
    assert_eq!(
        parse_map(b"\"aaa\" = (/turf/x)\n(1,1,1) = {\"\naaaa\n\"}\n").unwrap_err(),
        ParseError::MalformedRow
    );
    assert_eq!(
        parse_map(b"\"aaa\" = (/turf/x{name})\n").unwrap_err(),
        ParseError::BadVariable
    );
    assert_eq!(parse_map(b"\"aaa\" = (turf)\n").unwrap_err(), ParseError::BadPath);
    assert_eq!(
        parse_map(b"\"aaa\" = (/turf/x)\n(1,1,1) = {\"\naaa\n").unwrap_err(),
        ParseError::UnclosedBlock
    );
}

#[test]
fn a_row_with_an_unknown_key_fails_the_commands() {
    let map = parse_map(b"\"aaa\" = (/turf/x)\n(1,1,1) = {\"\naaabbb\n\"}\n").unwrap();
    assert_eq!(build_commands(&map, PLAIN), Err(ParseError::UnknownKey));
}

#[test]
fn a_tile_beyond_the_machine_fails_the_commands() {
    let text = format!("\"a\" = (/turf/x)\n({},1,1) = {{\"\naa\n\"}}\n", usize::MAX);
    let map = parse_map(text.as_bytes()).unwrap();
    assert_eq!(build_commands(&map, PLAIN), Err(ParseError::CoordinateOverflow));
    let text = format!("\"a\" = (/turf/x)\n(1,{},1) = {{\"\na\na\n\"}}\n", usize::MAX);
    let map = parse_map(text.as_bytes()).unwrap();
    assert_eq!(build_commands(&map, PLAIN), Err(ParseError::CoordinateOverflow));
    let text = format!("\"a\" = (/turf/x)\n({},{},1) = {{\"\na\n\"}}\n", usize::MAX, usize::MAX);
    let map = parse_map(text.as_bytes()).unwrap();
    assert_eq!(build_commands(&map, PLAIN).unwrap().len(), 1);
}
