use i2p_sam::message::{format_message, parse, split_words, chars_of, Command, ParseError, Subcommand};

fn pairs(v: &[(&str, &str)]) -> Vec<(String, String)> {
    v.iter().map(|(k, x)| (k.to_string(), x.to_string())).collect()
}

#[test]
fn words_split_on_any_run_of_spaces() {
    let w = split_words(&chars_of("  A\tBC \r\n D  "));
    let w: Vec<String> = w.iter().map(|x| x.iter().collect()).collect();
    assert_eq!(w, vec!["A".to_string(), "BC".to_string(), "D".to_string()]);
    assert!(split_words(&chars_of("")).is_empty());
    assert!(split_words(&chars_of(" \n")).is_empty());
}

#[test]
fn parse_keeps_fields_in_order() {
    let p = parse("NAMING REPLY RESULT=OK NAME=a VALUE=\n", Command::Naming, Some(Subcommand::Reply))
        .unwrap();
    assert_eq!(p.command, Command::Naming);
    assert_eq!(p.subcommand, Some(Subcommand::Reply));
    assert_eq!(p.fields, pairs(&[("RESULT", "OK"), ("NAME", "a"), ("VALUE", "")]));
}

#[test]
fn parse_splits_at_first_equals() {
    let p = parse("SESSION STATUS DESTINATION=ab==cd=", Command::Session, Some(Subcommand::Status))
        .unwrap();
    assert_eq!(p.fields, pairs(&[("DESTINATION", "ab==cd=")]));
    assert_eq!(p.get_value("DESTINATION"), Some("ab==cd=".to_string()));
}

#[test]
fn parse_without_subcommand() {
    let p = parse("NAMING K=V", Command::Naming, None).unwrap();
    assert_eq!(p.fields, pairs(&[("K", "V")]));
    assert_eq!(
        parse("NAMING REPLY K=V", Command::Naming, None).err(),
        Some(ParseError::MalformedField)
    );
}

#[test]
fn parse_refuses_other_header() {
    assert_eq!(
        parse("NAMING REPLY A=B", Command::Session, Some(Subcommand::Status)).err(),
        Some(ParseError::UnexpectedHeader)
    );
    assert_eq!(
        parse("NAMING", Command::Naming, Some(Subcommand::Reply)).err(),
        Some(ParseError::UnexpectedHeader)
    );
    assert_eq!(
        parse("", Command::Naming, None).err(),
        Some(ParseError::UnexpectedHeader)
    );
    assert_eq!(
        parse("naming reply", Command::Naming, Some(Subcommand::Reply)).err(),
        Some(ParseError::UnexpectedHeader)
    );
}

#[test]
fn parse_refuses_word_without_equals() {
    assert_eq!(
        parse("NAMING REPLY A=B C", Command::Naming, Some(Subcommand::Reply)).err(),
        Some(ParseError::MalformedField)
    );
}

#[test]
fn get_value_is_exact_and_last_wins() {
    let p = parse("NAMING REPLY A=1 a=2 A=3", Command::Naming, Some(Subcommand::Reply)).unwrap();
    assert_eq!(p.get_value("A"), Some("3".to_string()));
    assert_eq!(p.get_value("a"), Some("2".to_string()));
    assert_eq!(p.get_value("B"), None);
    assert_eq!(p.get_value(""), None);
}

#[test]
fn format_writes_one_line() {
    let f = pairs(&[("NAME", "zzz.i2p")]);
    assert_eq!(
        format_message(Command::Naming, Some(Subcommand::Lookup), &f),
        "NAMING LOOKUP NAME=zzz.i2p\n"
    );
    assert_eq!(format_message(Command::Naming, None, &Vec::new()), "NAMING\n");
    assert_eq!(
        format_message(Command::Session, Some(Subcommand::Status), &pairs(&[("A", ""), ("B", "x=y")])),
        "SESSION STATUS A= B=x=y\n"
    );
}

#[test]
fn format_then_parse_gives_fields_back() {
    let f = pairs(&[("RESULT", "OK"), ("NAME", "a.i2p"), ("VALUE", "q=="), ("EMPTY", "")]);
    let line = format_message(Command::Naming, Some(Subcommand::Reply), &f);
    let p = parse(&line, Command::Naming, Some(Subcommand::Reply)).unwrap();
    assert_eq!(p.fields, f);
}
