use omatide::cli::{command, days_asked, flags, hours_and_minutes, kind_word, station_asked, Asked, Command, USAGE};
use omatide::station::Kind;

fn args(words: &[&str]) -> Vec<String> {
    words.iter().map(|w| w.to_string()).collect()
}

#[test]
fn the_first_word_names_the_command() {
    assert_eq!(command(&args(&[])), Ok(Command::Usage));
    assert_eq!(command(&args(&["run", "--no-keel"])), Ok(Command::Run));
    assert_eq!(command(&args(&["tide", "9414290"])), Ok(Command::Tide));
    assert_eq!(command(&args(&["version"])), Ok(Command::Version));
    assert_eq!(command(&args(&["--help"])), Ok(Command::Help));
    let e = command(&args(&["sail", "now"])).unwrap_err();
    assert_eq!(e, format!("unexpected 'sail now'\n\n{USAGE}"));
}

#[test]
fn flags_take_values_and_switches_stand_alone() {
    let p = flags(&args(&["--socket", "/a", "word", "--no-keel", "--socket", "/b"]), &["socket", "keel"], &["no-keel"]).unwrap();
    assert_eq!(p.value("socket"), Some("/b"));
    assert_eq!(p.value("keel"), None);
    assert!(p.on("no-keel"));
    assert!(!p.on("socket"));
    assert_eq!(p.words, ["word"]);
    assert_eq!(p.no_words().unwrap_err(), format!("unexpected 'word'\n\n{USAGE}"));
    assert_eq!(flags(&args(&["--keel"]), &["keel"], &[]).err().unwrap(), "--keel needs a value");
    assert_eq!(flags(&args(&["--wobble"]), &["keel"], &[]).err().unwrap(), format!("unexpected '--wobble'\n\n{USAGE}"));
    assert!(flags(&args(&[]), &[], &[]).unwrap().no_words().is_ok());
}

#[test]
fn days_are_two_unless_asked_and_one_to_fourteen() {
    assert_eq!(days_asked(None), Ok(2));
    assert_eq!(days_asked(Some("5")), Ok(5));
    assert_eq!(days_asked(Some("0")), Ok(1));
    assert_eq!(days_asked(Some("90")), Ok(14));
    assert_eq!(days_asked(Some("-3")), Ok(1));
    assert_eq!(days_asked(Some("soon")).unwrap_err(), "days: expected a number");
}

#[test]
fn a_station_is_asked_for_by_key_or_position() {
    assert!(matches!(station_asked(None), Asked::Home));
    assert!(matches!(station_asked(Some("37.87,-122.44")), Asked::Position(p) if p == "37.87,-122.44"));
    assert!(matches!(station_asked(Some("9414290")), Asked::Key(k) if k == "9414290"));
    assert_eq!(kind_word(None), Ok(None));
    assert_eq!(kind_word(Some("tide")), Ok(Some(Kind::Tide)));
    assert!(kind_word(Some("wind")).is_err());
}

#[test]
fn time_to_a_turn_reads_in_hours_and_minutes() {
    assert_eq!(hours_and_minutes(0), "0m");
    assert_eq!(hours_and_minutes(45 * 60 + 59), "45m");
    assert_eq!(hours_and_minutes(6300), "1h 45m");
    assert_eq!(hours_and_minutes(10 * 3600 + 5 * 60), "10h 05m");
}

#[test]
fn a_time_gone_by_reads_with_its_sign() {
    assert_eq!(hours_and_minutes(-30), "0m");
    assert_eq!(hours_and_minutes(-60), "-1m");
    assert_eq!(hours_and_minutes(-6300), "-1h -45m");
    assert_eq!(hours_and_minutes(-3900), "-1h -5m");
    assert_eq!(hours_and_minutes(-3600), "-1h 00m");
    assert_eq!(hours_and_minutes(i64::MIN), "-2562047788015215h -30m");
}
