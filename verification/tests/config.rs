use omatide::config::{read_settings, Key, Line};

fn setting(l: &Line) -> Option<(Key, &str)> {
    match l {
        Line::Setting(k, v) => Some((*k, v.as_str())),
        Line::Problem(_) => None,
    }
}

fn problem(l: &Line) -> Option<&str> {
    match l {
        Line::Problem(p) => Some(p.as_str()),
        Line::Setting(..) => None,
    }
}

#[test]
fn reads_region_home_and_depth() {
    let lines = read_settings(
        "# Puget Sound\nregion = 47.0, -123.5, 48.8, -122.0\n\
         home = \"47.68, -122.41\"\ndepth = 5\n",
    );
    assert!(lines.iter().all(|l| problem(l).is_none()));
    assert_eq!(lines.len(), 3);
    assert_eq!(setting(&lines[0]), Some((Key::Region, "47.0, -123.5, 48.8, -122.0")));
    assert_eq!(setting(&lines[1]), Some((Key::Home, "47.68, -122.41")));
    assert_eq!(setting(&lines[2]), Some((Key::Depth, "5")));
}

#[test]
fn reports_bad_settings_and_keeps_the_defaults() {
    let lines = read_settings("region = 38, -123\nhome = north\ndepth = -2\ntide = high\nnonsense\n");
    assert_eq!(lines.len(), 5);
    // The values are read by the caller, which reports them.
    assert_eq!(setting(&lines[0]), Some((Key::Region, "38, -123")));
    assert_eq!(setting(&lines[1]), Some((Key::Home, "north")));
    assert_eq!(setting(&lines[2]), Some((Key::Depth, "-2")));
    assert_eq!(problem(&lines[3]), Some("unknown setting tide"));
    assert!(problem(&lines[4]).unwrap().contains("line 5"));
    assert_eq!(problem(&lines[4]), Some("line 5: expected key = value"));
}

#[test]
fn comments_sections_and_blank_lines_say_nothing() {
    let lines = read_settings("[tide]\n\n   # a note\r\ndepth = 2 # shallow\r\n\ttrailing\t");
    assert_eq!(lines.len(), 2);
    assert_eq!(setting(&lines[0]), Some((Key::Depth, "2")));
    assert_eq!(problem(&lines[1]), Some("line 5: expected key = value"));
    assert!(read_settings("").is_empty());
}

#[test]
fn only_the_first_equals_sign_divides() {
    let lines = read_settings("home=\"1,2\"=x");
    assert_eq!(setting(&lines[0]), Some((Key::Home, "1,2\"=x")));
}
