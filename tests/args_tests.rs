use fxmark::args::{ARGs, ArgsError};

#[test]
fn parses_four_fields() {
    let a = ARGs::parse("4X16XmixX20").unwrap();
    assert_eq!(a.cores, 4);
    assert_eq!(a.open_files, 16);
    assert_eq!(a.benchmark, "mix");
    assert_eq!(a.write_ratio, 20);
}

#[test]
fn from_str_matches_parse() {
    let a: ARGs = "10X1XdrblX0".parse().unwrap();
    assert!(a == ARGs { cores: 10, open_files: 1, benchmark: String::from("drbl"), write_ratio: 0 });
}

#[test]
fn non_numeric_cores_fail() {
    assert_eq!(ARGs::parse("fourX16XmixX20").unwrap_err(), ArgsError::InvalidDigit);
}

#[test]
fn empty_field_fails() {
    assert_eq!(ARGs::parse("X16XmixX20").unwrap_err(), ArgsError::Empty);
    assert_eq!(ARGs::parse("4X16XmixX").unwrap_err(), ArgsError::Empty);
}

#[test]
fn missing_field_fails() {
    assert_eq!(ARGs::parse("4X16Xmix").unwrap_err(), ArgsError::MissingField);
    assert_eq!(ARGs::parse("4").unwrap_err(), ArgsError::MissingField);
}

#[test]
fn overflow_fails() {
    assert_eq!(ARGs::parse("99999999999999999999999X1XmixX1").unwrap_err(), ArgsError::Overflow);
}

#[test]
fn largest_value_parses() {
    let s = format!("{}X0XmixX100", usize::MAX);
    let a = ARGs::parse(&s).unwrap();
    assert_eq!(a.cores, usize::MAX);
    assert_eq!(a.open_files, 0);
    assert_eq!(a.write_ratio, 100);
}

#[test]
fn empty_name_and_extra_fields() {
    let a = ARGs::parse("2X3XX5XignoredX").unwrap();
    assert_eq!(a.benchmark, "");
    assert_eq!(a.write_ratio, 5);
}

#[test]
fn leading_plus_is_accepted() {
    let a = ARGs::parse("+4X+16XmixX+20").unwrap();
    assert_eq!((a.cores, a.open_files, a.write_ratio), (4, 16, 20));
    assert_eq!(ARGs::parse("+X16XmixX20").unwrap_err(), ArgsError::InvalidDigit);
    assert_eq!(ARGs::parse("++4X16XmixX20").unwrap_err(), ArgsError::InvalidDigit);
    assert_eq!(ARGs::parse("-4X16XmixX20").unwrap_err(), ArgsError::InvalidDigit);
    assert_eq!(ARGs::parse("4+X16XmixX20").unwrap_err(), ArgsError::InvalidDigit);
}

#[test]
fn from_str_errors_match_parse() {
    assert_eq!("fourX16XmixX20".parse::<ARGs>().unwrap_err(), ArgsError::InvalidDigit);
    assert_eq!("4X16".parse::<ARGs>().unwrap_err(), ArgsError::MissingField);
    let a: ARGs = "4X16XmixX20".parse().unwrap();
    assert!(a == ARGs { cores: 4, open_files: 16, benchmark: String::from("mix"), write_ratio: 20 });
}
