use xcape::args::parse_map;
use xcape::error::XcapeError;

#[test]
fn parse_map_success() {
    assert_eq!(parse_map("16=32").unwrap(), (16, vec![32]));
    assert_eq!(parse_map(" 16 = 32 ").unwrap(), (16, vec![32]));
    assert_eq!(parse_map("16=32|53|21").unwrap(), (16, vec![32, 53, 21]));
}

#[test]
fn parse_map_failure() {
    assert!(parse_map("256 = 32").is_err());
    assert!(parse_map("hoge = fuga").is_err());
    assert!(parse_map("256 = 32*32*52").is_err());
    assert!(parse_map("423").is_err());
}

fn reason_of(r: Result<(u8, Vec<u8>), XcapeError>) -> (String, String) {
    match r {
        Err(XcapeError::InvalidExpressionArg { map, reason }) => (map, reason),
        other => panic!("expected an expression error, got {:?}", other),
    }
}

#[test]
fn parse_map_reasons() {
    assert_eq!(
        reason_of(parse_map("423")),
        ("423".to_string(), "use `=`.".to_string())
    );
    assert_eq!(reason_of(parse_map("1=2=3")).1, "use `=`.");
    assert_eq!(reason_of(parse_map("256 = 32")).1, "parserInt key error");
    assert_eq!(reason_of(parse_map("hoge = fuga")).1, "parserInt key error");
    assert_eq!(reason_of(parse_map("16 = 32*32*52")).1, "parseInt value error");
    assert_eq!(reason_of(parse_map("16 = 32||52")).1, "parseInt value error");
    assert_eq!(reason_of(parse_map("16 = 256")).1, "parseInt value error");
}

#[test]
fn parse_map_edge_forms() {
    assert_eq!(parse_map("+16=+0").unwrap(), (16, vec![0]));
    assert_eq!(parse_map("0016=255").unwrap(), (16, vec![255]));
    assert_eq!(parse_map("\t9 =\u{3000}23 | 66 ").unwrap(), (9, vec![23, 66]));
    assert!(parse_map("=1").is_err());
    assert!(parse_map("1=").is_err());
    assert!(parse_map("-1=2").is_err());
    assert!(parse_map("").is_err());
    assert!(parse_map("1 2=3").is_err());
}
