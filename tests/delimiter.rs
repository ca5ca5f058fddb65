use clap::{Arg, Command};
use csv_splitter::{Delimiter, DelimiterParseError};
use std::str::FromStr;

#[test]
fn test_parse_cli_command() {
    let matches = Command::new("test")
        .arg(Arg::new("delimiter").short('d').long("delimiter"))
        .try_get_matches_from(vec!["test", "-d", ";"])
        .unwrap();

    let delimiter_str = matches.get_one::<String>("delimiter").unwrap();
    let delimiter = Delimiter::from_str(delimiter_str).unwrap();

    assert_eq!(delimiter, Delimiter::SemiColon)
}

#[test]
fn parses_each_delimiter() {
    assert_eq!(Delimiter::parse(","), Ok(Delimiter::Comma));
    assert_eq!(Delimiter::parse("|"), Ok(Delimiter::Pipe));
    assert_eq!(Delimiter::parse("\t"), Ok(Delimiter::Tab));
    assert_eq!(Delimiter::parse(";"), Ok(Delimiter::SemiColon));
}

#[test]
fn refuses_other_text() {
    assert_eq!(Delimiter::parse(""), Err(DelimiterParseError::InvalidDelimiter));
    assert_eq!(Delimiter::parse(":"), Err(DelimiterParseError::InvalidDelimiter));
    assert_eq!(Delimiter::parse(",,"), Err(DelimiterParseError::InvalidDelimiter));
    assert!(Delimiter::from_str("comma").is_err());
}

#[test]
fn delimiter_bytes_and_text() {
    assert_eq!(Delimiter::Comma.to_byte(), b',');
    assert_eq!(Delimiter::Pipe.to_byte(), b'|');
    assert_eq!(Delimiter::Tab.to_byte(), b'\t');
    assert_eq!(Delimiter::SemiColon.to_byte(), b';');
    assert_eq!(u8::from(Delimiter::Pipe), Delimiter::PIPE);
    assert_eq!(u8::from(Delimiter::Tab), Delimiter::TAB);
    assert_eq!(Delimiter::SemiColon.to_string(), ";");
    assert_eq!(Delimiter::Tab.to_string(), "\t");
    assert_eq!(Delimiter::Comma.as_char(), ',');
}

#[test]
fn text_of_a_delimiter_parses_back() {
    for d in [Delimiter::Comma, Delimiter::Pipe, Delimiter::Tab, Delimiter::SemiColon] {
        assert_eq!(Delimiter::from_str(&d.to_string()), Ok(d));
    }
}
