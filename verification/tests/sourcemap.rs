use foundry_compilers::sourcemap::{parse, Jump, Parser};

const SOURCE_MAPS: &str = "26:1094:0:-:0;;;;;;;;;;;;;;;;;;;;;;;;;;;;;;;;;;;;;;;;;;;;;;;;;;;;;;;;;;;;;;;;;;;;;;
26:1094:0:-:0;;;;8:9:-1;5:2;;;30:1;27;20:12;5:2;26:1094:0;;;;;;;;
57:135:0:-:0;;;;;;;;;;;;;;;;;;;;;;;;;;;;;;;;;;;;;;;;;;;;;;;;;;;;;;;;;;;;;;;;;:::i;;;;;;:::o:1
1:2:1:-;:9;2:1:2;;;5:6:-1:-:3
";

const CHEATCODES_MAP: &str = "26:1094:0:-:0;;;;8:9:0:-;5:2;;;30:1;27;20:12;5:2;26:1094:0;;;;;;;;57:135;;;;;;:::i;;;;;;:::o:1";

#[test]
fn can_parse_source_maps() {
    for (line, s) in SOURCE_MAPS.lines().enumerate() {
        parse(s).unwrap_or_else(|e| panic!("Failed to parse line {line}: {}", e.to_string()));
    }
}

#[test]
fn can_parse_foundry_cheatcodes_sol_maps() {
    let s = CHEATCODES_MAP;
    let mut parser = Parser::new(s);
    parser.record_output();
    let _map = parser.collect().unwrap();
    assert_eq!(parser.output().unwrap(), s);
}

#[test]
fn parse_reads_fields_and_inherits() {
    let map = parse("1:2:1:-;:9;2:1:2;;").unwrap();
    assert_eq!(map.len(), 5);
    assert_eq!(map[0].offset(), 1);
    assert_eq!(map[0].length(), 2);
    assert_eq!(map[0].index(), Some(1));
    assert_eq!(map[1].offset(), 1);
    assert_eq!(map[1].length(), 9);
    assert_eq!(map[2].offset(), 2);
    assert_eq!(map[2].index(), Some(2));
    assert_eq!(map[4].offset(), 2);
}

#[test]
fn parse_reads_jumps_and_negative_index() {
    let map = parse("5:6:-1:i:2;:::o").unwrap();
    assert_eq!(map[0].index(), None);
    assert_eq!(map[0].index_i32(), -1);
    assert_eq!(map[0].jump(), Jump::In);
    assert_eq!(map[0].modifier_depth(), 2);
    assert_eq!(map[1].jump(), Jump::Out);
    assert_eq!(map[1].modifier_depth(), 2);
}

#[test]
fn parse_rejects_garbage() {
    assert!(parse("1:2:x").is_err());
    assert!(parse("1:2:3:q").is_err());
}

#[test]
fn first_element_needs_every_field() {
    assert_eq!(parse("").unwrap_err().to_string(), "No previous offset");
    assert_eq!(parse("1:2:1").unwrap_err().to_string(), "No previous jump");
}

#[test]
fn parse_rejects_modifier_depth_beyond_thirty_bits() {
    let err = parse("0:0:0:i:1073741824").unwrap_err();
    assert_eq!(err.to_string(), "Modifier depth out of range: 1073741824");
}

#[test]
fn parse_keeps_jump_beside_largest_modifier_depth() {
    let map = parse("0:0:0:i:1073741823;::::5").unwrap();
    assert_eq!(map[0].jump(), Jump::In);
    assert_eq!(map[0].modifier_depth(), 1073741823);
    assert_eq!(map[1].jump(), Jump::In);
    assert_eq!(map[1].modifier_depth(), 5);
}

#[test]
fn one_element_per_segment_and_empty_segments_repeat() {
    let map = parse("1:2:1:-;;3;").unwrap();
    assert_eq!(map.len(), 4);
    assert_eq!(map[1], map[0]);
    assert_eq!(map[2].offset(), 3);
    assert_eq!(map[2].length(), 2);
    assert_eq!(map[3], map[2]);
}

#[test]
fn parser_collects_as_parse_and_then_stops() {
    let s = "1:2:1:-;5:6";
    let mut p = Parser::new(s);
    let collected = p.collect().unwrap();
    assert_eq!(collected, parse(s).unwrap());
    let mut q = Parser::new(s);
    assert!(q.next().is_some());
    assert!(q.next().is_some());
    assert!(q.next().is_none());
    assert!(q.next().is_none());
}
