use omatide::engine::{
    asked_time, curve_window, kind_asked, lock_path, next, read_request, route, socket_in, Framed, Heard, Keel,
    Lines, Next, Request, TimeAsked, MAX_LINE, MAX_POINTS,
};
use omatide::station::Kind;

fn lines_of(out: &[Framed]) -> Vec<Result<String, ()>> {
    out.iter()
        .map(|f| match f {
            Framed::Line(t) => Ok(String::from_utf8(t.clone()).unwrap()),
            Framed::TooLong => Err(()),
        })
        .collect()
}

#[test]
fn a_request_the_engine_cant_serve_is_answered_with_why() {
    assert!(route("wobble").unwrap_err().contains("doesn't know"));
    assert!(route("").unwrap_err().contains("needs a type"));
    let e = asked_time(&TimeAsked::Text("yesterday".into()), 0).unwrap_err();
    assert!(e.contains("isn't a UTC time"), "{e}");
    assert_eq!(read_request(b"not json").unwrap_err(), "not a JSON object");
    assert_eq!(read_request(b"[1, 2]").unwrap_err(), "not a JSON object");
    // A line longer than the protocol allows is one error, and the next
    // line is read as usual.
    let mut lines = Lines::new();
    let mut long = vec![b'x'; 70 * 1024];
    long.extend_from_slice(b"\n{}\n");
    assert_eq!(lines_of(&lines.feed(&long)), [Err(()), Ok("{}".to_string())]);
}

#[test]
fn a_curve_carries_its_points_and_its_turns() {
    assert_eq!(curve_window(None, None), (24 * 3600, 600));
    // A fortnight at a minute is too many points: the step stretches.
    let (span, step) = curve_window(Some(336), Some(60));
    assert_eq!(span, 336 * 3600);
    assert!(step > 60, "step stayed at {step}");
    let points = span / step + 1;
    assert!(points <= MAX_POINTS, "{points} points");
    assert!((points - 1) * step > span - step, "only {} s covered", (points - 1) * step);
    assert_eq!(curve_window(Some(0), Some(1)), (3600, 60));
    assert_eq!(curve_window(Some(1000), Some(100_000)), (336 * 3600, 3600));
}

#[test]
fn requests_are_routed_by_their_type() {
    assert_eq!(route("curve"), Ok(Request::Curve));
    assert_eq!(route("bay"), Ok(Request::Bay));
    assert_eq!(route("streams"), Ok(Request::Streams));
    assert_eq!(route("stations"), Ok(Request::Stations));
    assert_eq!(route("wobble").unwrap_err(), "omatide doesn't know the request wobble");
    assert_eq!(route("").unwrap_err(), "a request needs a type");
    assert_eq!(kind_asked(None), Ok(Kind::Tide));
    assert_eq!(kind_asked(Some("current")), Ok(Kind::Current));
    assert_eq!(kind_asked(Some("wind")).unwrap_err(), "kind must be tide or current, not wind");
}

#[test]
fn a_request_names_its_moment_or_means_now() {
    assert_eq!(asked_time(&TimeAsked::Absent, 77), Ok(77));
    assert_eq!(asked_time(&TimeAsked::Text("2026-09-20T12:00:00Z".into()), 0), Ok(1_789_905_600));
    assert_eq!(
        asked_time(&TimeAsked::Text("yesterday".into()), 0).unwrap_err(),
        "time: yesterday isn't a UTC time"
    );
    assert_eq!(
        asked_time(&TimeAsked::Other, 0).unwrap_err(),
        "time must be a UTC time like 2026-09-20T17:00:00Z"
    );
}

#[test]
fn lines_arrive_in_any_pieces() {
    let mut whole = Lines::new();
    let all = lines_of(&whole.feed(b"{\"type\":\"bay\"}\n  \n{\"a\":1}\n{\"b\""));
    assert_eq!(all, [Ok("{\"type\":\"bay\"}".to_string()), Ok("{\"a\":1}".to_string())]);
    let mut pieces = Lines::new();
    let mut got = Vec::new();
    for piece in [&b"{\"ty"[..], b"pe\":\"bay\"}\n ", b" \n{\"a\"", b":1}\n{\"b\""] {
        got.extend(lines_of(&pieces.feed(piece)));
    }
    assert_eq!(got, all);
    // A blank line is passed over, and a line just at the limit is read.
    let mut lines = Lines::new();
    let mut edge = vec![b'y'; MAX_LINE];
    edge.push(b'\n');
    assert_eq!(lines.feed(&edge).len(), 1);
    let mut over = Lines::new();
    let mut beyond = vec![b'y'; MAX_LINE + 1];
    beyond.push(b'\n');
    assert_eq!(lines_of(&over.feed(&beyond)), [Err(())]);
}

#[test]
fn a_request_is_a_json_object() {
    let v = read_request(b"{\"type\":\"curve\",\"id\":7}").unwrap();
    assert_eq!(v["id"], 7);
    assert!(read_request(b"").is_err());
}

#[test]
fn the_socket_lives_under_the_runtime_directory() {
    assert_eq!(socket_in(Some("/run/user/1000")).unwrap(), "/run/user/1000/omatide/tide.sock");
    assert_eq!(socket_in(Some("run")).unwrap_err(), "XDG_RUNTIME_DIR must be set to an absolute path");
    assert!(socket_in(None).is_err());
    assert_eq!(lock_path("/run/user/1000/omatide/tide.sock"), "/run/user/1000/omatide/tide.sock.lock");
}

#[test]
fn the_engine_follows_omakeel() {
    assert_eq!(Keel::at_start(false).name(), "off");
    assert_eq!(Keel::at_start(true).name(), "connecting");
    let n = next(Keel::Connecting, Heard::Boat { same: false });
    assert_eq!(n, Next { keel: Keel::Connected, reload_settings: false, take_boat: true, answer: false, send_state: true });
    // Losing omakeel sends the state once, not on every word of it.
    let lost = next(Keel::Connected, Heard::Lost);
    assert!(lost.send_state);
    assert!(!next(lost.keel, Heard::Lost).send_state);
    assert_eq!(next(Keel::Lost, Heard::Incompatible).keel.name(), "incompatible");
    // A tick re-reads the settings and re-sends; a request is answered alone.
    let tick = next(Keel::Off, Heard::Tick);
    assert!(tick.reload_settings && tick.send_state && tick.keel == Keel::Off);
    let ask = next(Keel::Connected, Heard::Request);
    assert!(ask.answer && !ask.send_state && ask.keel == Keel::Connected);
}
