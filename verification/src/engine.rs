//! The decisions of `omatide run`, the engine that serves the tide and
//! the stream over a Unix socket, one JSON object a line. The socket, the
//! tasks and the JSON are the caller's; what is decided on them is here:
//! how an app's bytes are cut into requests, which request was asked, how
//! long a curve is and how fine, the moment a request asks about, and
//! what the engine does on each thing it hears.

use vstd::prelude::*;
use vstd::string::StringExecFns;
use crate::station::Kind;
use crate::strings::{owned, str_eq};
use crate::cache::{absolute, join, join_spec, is_absolute};
use crate::time::{parse_iso, parse_iso_spec};

verus! {

/// The protocol's version, sent as `"v"` on every message.
pub const VERSION: u32 = 1;
/// Messages queued for one app. An app this far behind is dropped.
pub const QUEUE: usize = 64;
/// An app that can't take one message in this many seconds has stalled.
pub const WRITE_TIMEOUT_SECONDS: u64 = 2;
/// The longest line an app may send.
pub const MAX_LINE: usize = 65536;
/// The state is re-sent this often, in seconds, even when nothing else
/// happens, so a countdown to the next slack stays honest.
pub const TICK_SECONDS: u64 = 30;
/// How far ahead `state` looks for turns, in seconds.
pub const AHEAD: i64 = 259200;
/// The most points a curve may carry: a fortnight at ten minutes.
pub const MAX_POINTS: i64 = 2016;
/// The most arrows one `streams` answer may carry.
pub const MAX_STREAMS: usize = 400;

// ------------------------------------------------------------ lines

/// What the bytes from an app come to: a line to read as a request, or
/// a line that ran past `MAX_LINE` and is answered with an error.
pub enum Framed {
    Line(Vec<u8>),
    TooLong,
}

/// The same, as values.
pub enum Frame {
    Line(Seq<u8>),
    TooLong,
}

impl View for Framed {
    type V = Frame;

    open spec fn view(&self) -> Frame {
        match self {
            Framed::Line(t) => Frame::Line(t@),
            Framed::TooLong => Frame::TooLong,
        }
    }
}

/// Space, tab, newline, form feed or carriage return: Rust's
/// `u8::is_ascii_whitespace`.
pub open spec fn is_blank(b: u8) -> bool {
    b == 32 || b == 9 || b == 10 || b == 12 || b == 13
}

pub open spec fn all_blank(t: Seq<u8>) -> bool {
    forall|i: int| 0 <= i < t.len() ==> is_blank(#[trigger] t[i])
}

/// One byte read: the line so far, whether the rest of an overlong line
/// is being thrown away, and what the byte completes, if anything.
pub open spec fn step(line: Seq<u8>, skipping: bool, b: u8) -> (Seq<u8>, bool, Option<Frame>) {
    if b != 10 {
        if skipping {
            (line, true, None)
        } else if line.len() + 1 > MAX_LINE {
            (Seq::empty(), true, Some(Frame::TooLong))
        } else {
            (line.push(b), false, None)
        }
    } else if skipping {
        (line, false, None)
    } else if all_blank(line) {
        (Seq::empty(), false, None)
    } else {
        (Seq::empty(), false, Some(Frame::Line(line)))
    }
}

/// Every byte read in turn, from a line so far and a skipping flag.
pub open spec fn run(line: Seq<u8>, skipping: bool, bytes: Seq<u8>) -> (Seq<u8>, bool, Seq<Frame>)
    decreases bytes.len(),
{
    if bytes.len() == 0 {
        (line, skipping, Seq::empty())
    } else {
        let (l, s, frames) = run(line, skipping, bytes.drop_last());
        let (l2, s2, f) = step(l, s, bytes.last());
        (l2, s2, match f {
            Some(x) => frames.push(x),
            None => frames,
        })
    }
}

/// A line fit to be read: not too long, and not blank.
pub open spec fn fit(f: Frame) -> bool {
    match f {
        Frame::Line(t) => t.len() <= MAX_LINE && !all_blank(t) && !t.contains(10u8),
        Frame::TooLong => true,
    }
}

/// Cuts an app's bytes into lines, as they arrive in any pieces.
pub struct Lines {
    line: Vec<u8>,
    skipping: bool,
}

impl Lines {
    /// The line so far, and whether an overlong one is being skipped.
    pub closed spec fn state(&self) -> (Seq<u8>, bool) {
        (self.line@, self.skipping)
    }

    /// What a reader keeps true: the line so far is never too long, and
    /// holds no newline.
    pub closed spec fn well_formed(&self) -> bool {
        self.line@.len() <= MAX_LINE && !self.line@.contains(10u8)
    }

    /// Nothing read yet.
    pub fn new() -> (r: Lines)
        ensures
            r.state() == (Seq::<u8>::empty(), false),
            r.well_formed(),
    {
        Lines { line: Vec::new(), skipping: false }
    }

    /// Reads a piece of what an app sent: the lines and errors it
    /// completes, in order.
    pub fn feed(&mut self, bytes: &[u8]) -> (out: Vec<Framed>)
        requires
            old(self).well_formed(),
        ensures
            final(self).well_formed(),
            ({
                let (l, s, frames) = run(old(self).state().0, old(self).state().1, bytes@);
                &&& final(self).state() == (l, s)
                &&& out@.len() == frames.len()
                &&& forall|i: int| 0 <= i < out@.len() ==> #[trigger] out@[i]@ == frames[i]
            }),
            forall|i: int| 0 <= i < out@.len() ==> fit(#[trigger] out@[i]@),
    {
        let ghost start = self.state();
        let mut out: Vec<Framed> = Vec::new();
        let mut i: usize = 0;
        while i < bytes.len()
            invariant
                i <= bytes@.len(),
                self.well_formed(),
                ({
                    let (l, s, frames) = run(start.0, start.1, bytes@.take(i as int));
                    &&& self.state() == (l, s)
                    &&& out@.len() == frames.len()
                    &&& forall|k: int| 0 <= k < out@.len() ==> #[trigger] out@[k]@ == frames[k]
                }),
                forall|k: int| 0 <= k < out@.len() ==> fit(#[trigger] out@[k]@),
            decreases bytes@.len() - i,
        {
            let b = bytes[i];
            let ghost before = out@;
            assert(bytes@.take(i + 1).drop_last() =~= bytes@.take(i as int));
            assert(bytes@.take(i + 1).last() == b);
            if b != 10 {
                if !self.skipping {
                    if self.line.len() + 1 > MAX_LINE {
                        self.line.clear();
                        self.skipping = true;
                        out.push(Framed::TooLong);
                    } else {
                        self.line.push(b);
                        assert(!self.line@.contains(10u8)) by {
                            assert forall|k: int| 0 <= k < self.line@.len() implies self.line@[k] != 10u8 by {
                                if k < self.line@.len() - 1 {
                                    assert(self.line@[k] == self.line@.drop_last()[k]);
                                }
                            }
                        }
                    }
                }
            } else if self.skipping {
                self.skipping = false;
            } else {
                let mut text: Vec<u8> = Vec::new();
                std::mem::swap(&mut text, &mut self.line);
                if !blank_line(&text) {
                    out.push(Framed::Line(text));
                }
            }
            proof {
                assert forall|k: int| 0 <= k < out@.len() implies fit(#[trigger] out@[k]@) by {
                    if k < before.len() {
                        assert(out@[k] == before[k]);
                    }
                }
            }
            i += 1;
        }
        assert(bytes@.take(bytes@.len() as int) =~= bytes@);
        out
    }
}

/// Reading in two pieces is reading the whole: the bytes of an app may
/// arrive cut anywhere.
pub proof fn lemma_lines_in_pieces(line: Seq<u8>, skipping: bool, a: Seq<u8>, b: Seq<u8>)
    ensures
        ({
            let (l1, s1, f1) = run(line, skipping, a);
            let (l2, s2, f2) = run(l1, s1, b);
            run(line, skipping, a + b) == (l2, s2, f1 + f2)
        }),
    decreases b.len(),
{
    if b.len() == 0 {
        assert(a + b =~= a);
        let (l1, s1, f1) = run(line, skipping, a);
        assert(f1 + Seq::<Frame>::empty() =~= f1);
    } else {
        lemma_lines_in_pieces(line, skipping, a, b.drop_last());
        assert((a + b).drop_last() =~= a + b.drop_last());
        assert((a + b).last() == b.last());
        let (l1, s1, f1) = run(line, skipping, a);
        let (lb, sb, fb) = run(l1, s1, b.drop_last());
        let (l2, s2, f) = step(lb, sb, b.last());
        match f {
            Some(x) => {
                assert((f1 + fb).push(x) =~= f1 + fb.push(x));
            },
            None => {},
        }
    }
}

/// Reading part of a line with no newline in it from a fresh start.
proof fn lemma_line_prefix(t: Seq<u8>, k: int)
    requires
        0 <= k <= t.len(),
        !t.contains(10u8),
    ensures
        k <= MAX_LINE ==> run(Seq::empty(), false, t.take(k)) == (t.take(k), false, Seq::<Frame>::empty()),
        k > MAX_LINE ==> run(Seq::empty(), false, t.take(k)) == (Seq::<u8>::empty(), true, seq![Frame::TooLong]),
    decreases k,
{
    if k > 0 {
        lemma_line_prefix(t, k - 1);
        assert(t.take(k).drop_last() =~= t.take(k - 1));
        assert(t.take(k).last() == t[k - 1]);
        assert(t[k - 1] != 10u8);
        assert(t.take(k - 1).push(t[k - 1]) =~= t.take(k));
    } else {
        assert(t.take(0) =~= Seq::<u8>::empty());
    }
}

/// A line an app sends whole, newline and all, is read as itself when it
/// fits in `MAX_LINE` and holds more than white space; a blank one is
/// passed over; and one longer than `MAX_LINE` is answered with a single
/// error and otherwise ignored. Either way the reader starts the next
/// line afresh.
pub proof fn lemma_one_line(t: Seq<u8>)
    requires
        !t.contains(10u8),
    ensures
        t.len() <= MAX_LINE && !all_blank(t) ==> run(Seq::empty(), false, t.push(10u8)) == (Seq::<u8>::empty(), false, seq![Frame::Line(t)]),
        t.len() <= MAX_LINE && all_blank(t) ==> run(Seq::empty(), false, t.push(10u8)) == (Seq::<u8>::empty(), false, Seq::<Frame>::empty()),
        t.len() > MAX_LINE ==> run(Seq::empty(), false, t.push(10u8)) == (Seq::<u8>::empty(), false, seq![Frame::TooLong]),
{
    lemma_line_prefix(t, t.len() as int);
    assert(t.take(t.len() as int) =~= t);
    assert(t.push(10u8).drop_last() =~= t);
    assert(Seq::<Frame>::empty().push(Frame::Line(t)) =~= seq![Frame::Line(t)]);
}

/// Whether every byte of a line is ASCII white space.
fn blank_line(t: &Vec<u8>) -> (r: bool)
    ensures
        r == all_blank(t@),
{
    let mut i: usize = 0;
    while i < t.len()
        invariant
            i <= t@.len(),
            forall|k: int| 0 <= k < i ==> is_blank(#[trigger] t@[k]),
        decreases t@.len() - i,
    {
        let b = t[i];
        if !(b == 32 || b == 9 || b == 10 || b == 12 || b == 13) {
            return false;
        }
        i += 1;
    }
    true
}

// ------------------------------------------------------------ requests

/// A line from an app as a request: it must be a JSON object, and one
/// that isn't is answered with this error and otherwise ignored.
pub fn read_request(line: &[u8]) -> (r: Result<serde_json::Value, String>)
    ensures
        r is Ok == crate::json::serde_json_object(line@),
        match r {
            Ok(_) => true,
            Err(e) => e@ == "not a JSON object"@,
        },
{
    match crate::json::object_from_slice(line) {
        Some(v) => Ok(v),
        None => Err(owned("not a JSON object")),
    }
}


/// What an app can ask for.
#[derive(Clone, Copy, Debug, PartialEq, Eq, Structural)]
pub enum Request {
    /// Something to draw: heights or speeds at a fixed step.
    Curve,
    /// The whole bay at one moment.
    Bay,
    /// The stream at every station over an area.
    Streams,
    /// The catalog, for drawing a map.
    Stations,
}

/// Which request a `type` names, or the error that answers it.
pub open spec fn route_spec(kind: Seq<char>) -> Result<Request, Seq<char>> {
    if kind == "curve"@ {
        Ok(Request::Curve)
    } else if kind == "bay"@ {
        Ok(Request::Bay)
    } else if kind == "streams"@ {
        Ok(Request::Streams)
    } else if kind == "stations"@ {
        Ok(Request::Stations)
    } else if kind.len() == 0 {
        Err("a request needs a type"@)
    } else {
        Err("omatide doesn't know the request "@ + kind)
    }
}

/// Reads a request's `type`, which is empty when the request gave none.
pub fn route(kind: &str) -> (r: Result<Request, String>)
    ensures
        match r {
            Ok(q) => route_spec(kind@) == Ok::<Request, Seq<char>>(q),
            Err(e) => route_spec(kind@) == Err::<Request, Seq<char>>(e@),
        },
{
    if str_eq(kind, "curve") {
        Ok(Request::Curve)
    } else if str_eq(kind, "bay") {
        Ok(Request::Bay)
    } else if str_eq(kind, "streams") {
        Ok(Request::Streams)
    } else if str_eq(kind, "stations") {
        Ok(Request::Stations)
    } else if kind.is_empty() {
        Err(owned("a request needs a type"))
    } else {
        let mut e = owned("omatide doesn't know the request ");
        e.append(kind);
        Err(e)
    }
}

/// The kind of station a request asks for: a tide unless it says
/// otherwise.
pub fn kind_asked(kind: Option<&str>) -> (r: Result<Kind, String>)
    ensures
        match kind {
            None => r == Ok::<Kind, String>(Kind::Tide),
            Some(k) => match r {
                Ok(x) => Kind::spec_parse(k@) == Some(x),
                Err(e) => Kind::spec_parse(k@) is None && e@ == "kind must be tide or current, not "@ + k@,
            },
        },
{
    match kind {
        None => Ok(Kind::Tide),
        Some(k) => match Kind::parse(k) {
            Some(x) => Ok(x),
            None => {
                let mut e = owned("kind must be tide or current, not ");
                e.append(k);
                Err(e)
            },
        },
    }
}

// ------------------------------------------------------------ curves

/// A number held within a range.
pub open spec fn clamp(v: int, lo: int, hi: int) -> int {
    if v < lo {
        lo
    } else if v > hi {
        hi
    } else {
        v
    }
}

/// The seconds a curve covers and the step between its points: the hours
/// asked for (24 by default, 1 to 336) and the step (600 s by default,
/// 60 to 3600), stretched rather than the window cut where it would take
/// more than `MAX_POINTS` points.
pub open spec fn curve_window_spec(hours: Option<i64>, step: Option<i64>) -> (int, int) {
    let h = clamp(match hours { Some(h) => h as int, None => 24 }, 1, 336);
    let s = clamp(match step { Some(s) => s as int, None => 600 }, 60, 3600);
    let span = h * 3600;
    let least = span / MAX_POINTS as int + 1;
    (span, if s >= least { s } else { least })
}

/// A curve covers the hours asked for, held to 1 to 336 (24 when none
/// are), and takes the step asked for, held to 60 to 3600 seconds (600
/// when none is), whenever that step gives at most `MAX_POINTS` points;
/// otherwise the step is the least that does. Either way the step is
/// never finer than the one asked for, held to its range.
pub proof fn lemma_curve_window(hours: Option<i64>, step: Option<i64>)
    ensures
        ({
            let (span, used) = curve_window_spec(hours, step);
            let h: int = match hours { Some(h) => if h < 1 { 1 } else if h > 336 { 336 } else { h as int }, None => 24 };
            let s: int = match step { Some(s) => if s < 60 { 60 } else if s > 3600 { 3600 } else { s as int }, None => 600 };
            &&& span == h * 3600
            &&& used >= s
            &&& span / used + 1 <= MAX_POINTS
            &&& (span / s + 1 <= MAX_POINTS ==> used == s)
            &&& (used > s ==> span / (used - 1) + 1 > MAX_POINTS)
        }),
{
    let (span, used) = curve_window_spec(hours, step);
    let s: int = match step { Some(s) => if s < 60 { 60 } else if s > 3600 { 3600 } else { s as int }, None => 600 };
    assert(span >= 0);
    let least = span / 2016 + 1;
    assert(span / least < 2016) by (nonlinear_arith)
        requires
            least == span / 2016 + 1,
            span >= 0,
    {
        assert(span < 2016 * least);
    }
    if span / s + 1 <= 2016 {
        assert(s >= least) by (nonlinear_arith)
            requires
                span / s + 1 <= 2016,
                s >= 60,
                span >= 0,
                least == span / 2016 + 1,
        {
            assert(span / s <= 2015);
            assert(span < s * (span / s) + s);
            assert(span < 2016 * s);
            assert(span / 2016 < s);
        }
    }
    assert(used >= least);
    assert(span / used < 2016) by (nonlinear_arith)
        requires
            used >= least,
            least == span / 2016 + 1,
            span >= 0,
    {
        assert(span < 2016 * least);
        assert(2016 * least <= 2016 * used);
    }
    if used > s {
        assert(used == least);
        assert(span / (least - 1) >= 2016) by (nonlinear_arith)
            requires
                least == span / 2016 + 1,
                least - 1 >= 60,
                span >= 0,
        {
            assert(span >= 2016 * (least - 1));
        }
    }
}

/// How long a curve is and how fine.
pub fn curve_window(hours: Option<i64>, step: Option<i64>) -> (r: (i64, i64))
    ensures
        (r.0 as int, r.1 as int) == curve_window_spec(hours, step),
        3600 <= r.0 <= 336 * 3600,
        60 <= r.1,
        r.0 / r.1 + 1 <= MAX_POINTS,
        (r.0 / r.1) * r.1 > r.0 - r.1,
{
    let h: i64 = match hours {
        Some(h) => if h < 1 { 1 } else if h > 336 { 336 } else { h },
        None => 24,
    };
    let s: i64 = match step {
        Some(s) => if s < 60 { 60 } else if s > 3600 { 3600 } else { s },
        None => 600,
    };
    let span: i64 = h * 3600;
    let least: i64 = span / MAX_POINTS + 1;
    let s: i64 = if s >= least { s } else { least };
    proof {
        assert(span / s < MAX_POINTS) by (nonlinear_arith)
            requires
                s >= span / 2016 + 1,
                span >= 0,
                s > 0,
        {
            assert(span / 2016 < s);
            assert(span < 2016 * s);
        }
        assert((span / s) * s > span - s) by (nonlinear_arith)
            requires
                span >= 0,
                s > 0,
        {
        }
    }
    (span, s)
}


// ------------------------------------------------------------ setup

/// What `omatide run` is started with. Paths are text with `/` between
/// their parts; `clock` gives Unix seconds now, and tests pin it.
pub struct Config<C: Fn() -> i64> {
    pub socket: String,
    /// omakeel's socket, for the boat's position. None to never ask.
    pub keel: Option<String>,
    /// Where the station catalog lives.
    pub data: String,
    pub settings: String,
    pub clock: C,
}

/// `omatide/tide.sock` under `$XDG_RUNTIME_DIR`, which must be absolute.
pub open spec fn socket_in_spec(runtime: Option<Seq<char>>) -> Result<Seq<char>, Seq<char>> {
    match runtime {
        Some(d) if is_absolute(d) => Ok(join_spec(join_spec(d, "omatide"@), "tide.sock"@)),
        _ => Err("XDG_RUNTIME_DIR must be set to an absolute path"@),
    }
}

/// The socket an engine serves on by default, from `XDG_RUNTIME_DIR`.
pub fn socket_in(runtime: Option<&str>) -> (r: Result<String, String>)
    ensures
        match r {
            Ok(p) => socket_in_spec(match runtime { Some(d) => Some(d@), None => None }) == Ok::<Seq<char>, Seq<char>>(p@),
            Err(e) => socket_in_spec(match runtime { Some(d) => Some(d@), None => None }) == Err::<Seq<char>, Seq<char>>(e@),
        },
{
    match runtime {
        Some(d) => {
            if absolute(d) {
                let dir = join(d, "omatide");
                Ok(join(dir.as_str(), "tide.sock"))
            } else {
                Err(owned("XDG_RUNTIME_DIR must be set to an absolute path"))
            }
        },
        None => Err(owned("XDG_RUNTIME_DIR must be set to an absolute path")),
    }
}

/// The lock beside a socket, which keeps a second engine off it.
pub fn lock_path(socket: &str) -> (r: String)
    ensures
        r@ == socket@ + ".lock"@,
{
    let mut p = owned(socket);
    p.append(".lock");
    p
}

// ------------------------------------------------------------ the loop

/// How the engine stands with omakeel, as `state` reports it.
#[derive(Clone, Copy, Debug, PartialEq, Eq, Structural)]
pub enum Keel {
    /// Started `--no-keel`.
    Off,
    /// Not heard from yet.
    Connecting,
    Connected,
    Lost,
    /// omakeel speaks a protocol this engine doesn't.
    Incompatible,
}

impl Keel {
    pub open spec fn spec_name(self) -> Seq<char> {
        match self {
            Keel::Off => "off"@,
            Keel::Connecting => "connecting"@,
            Keel::Connected => "connected"@,
            Keel::Lost => "lost"@,
            Keel::Incompatible => "incompatible"@,
        }
    }

    /// The word `state` carries.
    pub fn name(self) -> (r: &'static str)
        ensures
            r@ == self.spec_name(),
    {
        match self {
            Keel::Off => "off",
            Keel::Connecting => "connecting",
            Keel::Connected => "connected",
            Keel::Lost => "lost",
            Keel::Incompatible => "incompatible",
        }
    }

    /// Where an engine starts: connecting when it follows omakeel.
    pub fn at_start(following: bool) -> (r: Keel)
        ensures
            r == (if following { Keel::Connecting } else { Keel::Off }),
    {
        if following { Keel::Connecting } else { Keel::Off }
    }
}

/// What the engine's loop hears.
#[derive(Clone, Copy, Debug, PartialEq, Eq, Structural)]
pub enum Heard {
    /// The clock: time to look at the settings again and re-send.
    Tick,
    /// omakeel's word on the boat; `same` when it is the boat as last
    /// heard (or no fix, as before).
    Boat { same: bool },
    /// omakeel went away.
    Lost,
    /// omakeel answered in a protocol this engine doesn't speak.
    Incompatible,
    /// A request from an app.
    Request,
}

/// What the engine does on what it heard.
#[derive(Clone, Copy, Debug, PartialEq, Eq, Structural)]
pub struct Next {
    /// omakeel's standing after it.
    pub keel: Keel,
    /// Read the settings file again, where it has changed.
    pub reload_settings: bool,
    /// Take the boat just heard as where the tide is wanted.
    pub take_boat: bool,
    /// Answer the app that asked, and it alone.
    pub answer: bool,
    /// Send every app the state anew.
    pub send_state: bool,
}

pub open spec fn next_spec(keel: Keel, heard: Heard) -> Next {
    match heard {
        Heard::Tick => Next { keel, reload_settings: true, take_boat: false, answer: false, send_state: true },
        Heard::Boat { same } => Next { keel: Keel::Connected, reload_settings: false, take_boat: !same, answer: false, send_state: !same },
        Heard::Lost => Next { keel: Keel::Lost, reload_settings: false, take_boat: false, answer: false, send_state: keel != Keel::Lost },
        Heard::Incompatible => Next {
            keel: Keel::Incompatible,
            reload_settings: false,
            take_boat: false,
            answer: false,
            send_state: keel != Keel::Incompatible,
        },
        Heard::Request => Next { keel, reload_settings: false, take_boat: false, answer: true, send_state: false },
    }
}

/// The engine's decision on one thing heard.
pub fn next(keel: Keel, heard: Heard) -> (r: Next)
    ensures
        r == next_spec(keel, heard),
{
    match heard {
        Heard::Tick => Next { keel, reload_settings: true, take_boat: false, answer: false, send_state: true },
        Heard::Boat { same } => Next { keel: Keel::Connected, reload_settings: false, take_boat: !same, answer: false, send_state: !same },
        Heard::Lost => {
            let changed = match keel { Keel::Lost => false, _ => true };
            Next { keel: Keel::Lost, reload_settings: false, take_boat: false, answer: false, send_state: changed }
        },
        Heard::Incompatible => {
            let changed = match keel { Keel::Incompatible => false, _ => true };
            Next { keel: Keel::Incompatible, reload_settings: false, take_boat: false, answer: false, send_state: changed }
        },
        Heard::Request => Next { keel, reload_settings: false, take_boat: false, answer: true, send_state: false },
    }
}

/// The state goes out again on every tick, whenever the boat moves, and
/// whenever omakeel's standing changes, except that a word from omakeel
/// that leaves the boat where it was goes out with the next tick; a
/// request changes nothing and is answered to the app alone.
pub proof fn lemma_state_follows_changes(keel: Keel, heard: Heard)
    requires
        !(heard matches Heard::Boat { same } && same),
    ensures
        next_spec(keel, heard).send_state <==> (heard is Tick || next_spec(keel, heard).keel != keel || next_spec(keel, heard).take_boat),
        heard is Request ==> next_spec(keel, heard).answer && next_spec(keel, heard).keel == keel && !next_spec(keel, heard).send_state,
        next_spec(keel, heard).answer <==> heard is Request,
{
}

/// Hearing the same loss twice sends the state once: the second time
/// changes nothing.
pub proof fn lemma_heard_twice(keel: Keel, heard: Heard)
    requires
        heard is Lost || heard is Incompatible,
    ensures
        next_spec(next_spec(keel, heard).keel, heard) == (Next { send_state: false, ..next_spec(keel, heard) }),
{
}

// ------------------------------------------------------------ time asked

/// What a request says of `time`.
pub enum TimeAsked {
    /// Nothing, or null: now.
    Absent,
    Text(String),
    /// Something that isn't text.
    Other,
}

/// The moment a request asks about.
pub fn asked_time(asked: &TimeAsked, now: i64) -> (r: Result<i64, String>)
    ensures
        match asked {
            TimeAsked::Absent => r == Ok::<i64, String>(now),
            TimeAsked::Text(s) => match parse_iso_spec(s@) {
                Some(t) => r == Ok::<i64, String>(t),
                None => r is Err && r->Err_0@ == "time: "@ + s@ + " isn't a UTC time"@,
            },
            TimeAsked::Other => r is Err && r->Err_0@ == "time must be a UTC time like 2026-09-20T17:00:00Z"@,
        },
{
    match asked {
        TimeAsked::Absent => Ok(now),
        TimeAsked::Text(s) => match parse_iso(s.as_str()) {
            Some(t) => Ok(t),
            None => {
                let mut e = owned("time: ");
                e.append(s.as_str());
                e.append(" isn't a UTC time");
                Err(e)
            },
        },
        TimeAsked::Other => Err(owned("time must be a UTC time like 2026-09-20T17:00:00Z")),
    }
}

} // verus!
