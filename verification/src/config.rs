//! `~/.config/omatide/config.toml`: the waters to carry stations for,
//! home when there is no GPS, and how deep in the water column to read
//! the stream.
//!
//! The file is read line by line here, into the settings it gives and
//! the problems it has; reading each setting's numbers is the caller's.
//! Unknown keys and malformed lines are reported and skipped, so a typo
//! never stops the tide.

use vstd::prelude::*;
use vstd::string::StringExecFns;
use crate::strings::{owned, chars_of, string_of, push_decimal, decimal, str_eq};

verus! {

/// Which setting a line gives.
#[derive(Clone, Copy, Debug, PartialEq, Eq, Structural)]
pub enum Key {
    /// `region = south, west, north, east`
    Region,
    /// `home = latitude, longitude`
    Home,
    /// `depth = meters`
    Depth,
}

/// What one line of the file comes to.
pub enum Line {
    /// A setting, with its value as written, unquoted.
    Setting(Key, String),
    /// A line that can't be read.
    Problem(String),
}

/// The same, as values.
pub enum LineView {
    Setting(Key, Seq<char>),
    Problem(Seq<char>),
}

impl View for Line {
    type V = LineView;

    open spec fn view(&self) -> LineView {
        match self {
            Line::Setting(k, v) => LineView::Setting(*k, v@),
            Line::Problem(p) => LineView::Problem(p@),
        }
    }
}

/// Unicode white space, what `str::trim` takes off.
pub open spec fn is_white(c: char) -> bool {
    ('\u{9}' <= c && c <= '\u{d}') || c == ' ' || c == '\u{85}' || c == '\u{a0}' || c == '\u{1680}'
        || ('\u{2000}' <= c && c <= '\u{200a}') || c == '\u{2028}' || c == '\u{2029}' || c == '\u{202f}'
        || c == '\u{205f}' || c == '\u{3000}'
}

/// Whether a character is one that stripping takes off: white space
/// when `white`, else `c`.
pub open spec fn stripped(x: char, white: bool, c: char) -> bool {
    if white { is_white(x) } else { x == c }
}

/// The text with the given character taken off its start, as often as
/// it is there.
pub open spec fn strip_start(s: Seq<char>, white: bool, c: char) -> Seq<char>
    decreases s.len(),
{
    if s.len() > 0 && stripped(s[0], white, c) {
        strip_start(s.drop_first(), white, c)
    } else {
        s
    }
}

/// The same at the end.
pub open spec fn strip_end(s: Seq<char>, white: bool, c: char) -> Seq<char>
    decreases s.len(),
{
    if s.len() > 0 && stripped(s.last(), white, c) {
        strip_end(s.drop_last(), white, c)
    } else {
        s
    }
}

/// `str::trim`.
pub open spec fn trim(s: Seq<char>) -> Seq<char> {
    strip_end(strip_start(s, true, ' '), true, ' ')
}

/// `str::trim_matches('"')`.
pub open spec fn unquote(s: Seq<char>) -> Seq<char> {
    strip_end(strip_start(s, false, '"'), false, '"')
}

/// The text before the first of a character, or all of it.
pub open spec fn before(s: Seq<char>, c: char) -> Seq<char> {
    if s.contains(c) {
        s.subrange(0, choose|p: int| crate::strings::first_index_of(s, c, p))
    } else {
        s
    }
}

/// The text after the first of a character.
pub open spec fn after(s: Seq<char>, c: char) -> Seq<char> {
    s.subrange((choose|p: int| crate::strings::first_index_of(s, c, p)) + 1, s.len() as int)
}

/// What a line of the file says, counting lines from 1.
pub open spec fn read_line(line: Seq<char>, n: nat) -> Option<LineView> {
    let l = trim(before(line, '#'));
    if l.len() == 0 || l[0] == '[' {
        None
    } else if !l.contains('=') {
        Some(LineView::Problem("line "@ + decimal(n) + ": expected key = value"@))
    } else {
        let k = trim(before(l, '='));
        let v = unquote(trim(after(l, '=')));
        if k == "region"@ {
            Some(LineView::Setting(Key::Region, v))
        } else if k == "home"@ {
            Some(LineView::Setting(Key::Home, v))
        } else if k == "depth"@ {
            Some(LineView::Setting(Key::Depth, v))
        } else {
            Some(LineView::Problem("unknown setting "@ + k))
        }
    }
}

/// `str::lines`: the text cut at each `\n`, with a `\r` before it taken
/// off, and no empty line after a last `\n`.
pub open spec fn lines(s: Seq<char>) -> Seq<Seq<char>>
    decreases s.len(),
{
    if s.len() == 0 {
        Seq::empty()
    } else {
        let p = crate::strings::index_or_len(s, '\n');
        let line = s.subrange(0, p as int);
        if p < s.len() {
            let line = if line.len() > 0 && line.last() == '\r' { line.drop_last() } else { line };
            seq![line] + lines(s.subrange(p as int + 1, s.len() as int))
        } else {
            seq![line]
        }
    }
}

/// What the lines of a file say, the first of them being line `n`.
pub open spec fn read_lines(ls: Seq<Seq<char>>, n: nat) -> Seq<LineView>
    decreases ls.len(),
{
    if ls.len() == 0 {
        Seq::empty()
    } else {
        let rest = read_lines(ls.drop_first(), n + 1);
        match read_line(ls[0], n) {
            Some(x) => seq![x] + rest,
            None => rest,
        }
    }
}

fn white(c: char) -> (r: bool)
    ensures
        r == is_white(c),
{
    ('\u{9}' <= c && c <= '\u{d}') || c == ' ' || c == '\u{85}' || c == '\u{a0}' || c == '\u{1680}'
        || ('\u{2000}' <= c && c <= '\u{200a}') || c == '\u{2028}' || c == '\u{2029}' || c == '\u{202f}'
        || c == '\u{205f}' || c == '\u{3000}'
}

fn is_stripped(x: char, white_space: bool, c: char) -> (r: bool)
    ensures
        r == stripped(x, white_space, c),
{
    if white_space { white(x) } else { x == c }
}

/// Takes a character off both ends of `v[a..b]`, as often as it is there:
/// white space when `white_space`, else `c`.
fn strip(v: &Vec<char>, a: usize, b: usize, white_space: bool, c: char) -> (r: (usize, usize))
    requires
        a <= b <= v@.len(),
    ensures
        r.0 <= r.1 <= v@.len(),
        v@.subrange(r.0 as int, r.1 as int) == strip_end(strip_start(v@.subrange(a as int, b as int), white_space, c), white_space, c),
{
    let mut i = a;
    while i < b && is_stripped(v[i], white_space, c)
        invariant
            a <= i <= b <= v@.len(),
            strip_start(v@.subrange(a as int, b as int), white_space, c) == strip_start(v@.subrange(i as int, b as int), white_space, c),
        decreases b - i,
    {
        assert(v@.subrange(i as int, b as int).drop_first() =~= v@.subrange(i + 1, b as int));
        i += 1;
    }
    let mut j = b;
    while j > i && is_stripped(v[j - 1], white_space, c)
        invariant
            i <= j <= b <= v@.len(),
            strip_end(v@.subrange(i as int, b as int), white_space, c) == strip_end(v@.subrange(i as int, j as int), white_space, c),
        decreases j - i,
    {
        assert(v@.subrange(i as int, j as int).drop_last() =~= v@.subrange(i as int, j - 1));
        j -= 1;
    }
    proof {
        let s = v@.subrange(i as int, b as int);
        if !(i < b) {
            assert(s.len() == 0);
        }
    }
    (i, j)
}

/// The first place of a character in `v[a..b]`.
fn find_in(v: &Vec<char>, a: usize, b: usize, c: char) -> (r: Option<usize>)
    requires
        a <= b <= v@.len(),
    ensures
        match r {
            Some(p) => a <= p < b && crate::strings::first_index_of(v@.subrange(a as int, b as int), c, p - a),
            None => !v@.subrange(a as int, b as int).contains(c),
        },
{
    let mut i = a;
    while i < b
        invariant
            a <= i <= b <= v@.len(),
            forall|k: int| a <= k < i ==> v@[k] != c,
        decreases b - i,
    {
        if v[i] == c {
            return Some(i);
        }
        i += 1;
    }
    proof {
        assert forall|k: int| 0 <= k < b - a implies v@.subrange(a as int, b as int)[k] != c by {
            assert(v@.subrange(a as int, b as int)[k] == v@[a + k]);
        }
    }
    None
}

proof fn lemma_first_unique(s: Seq<char>, c: char, p: int, q: int)
    requires
        crate::strings::first_index_of(s, c, p),
        crate::strings::first_index_of(s, c, q),
    ensures
        p == q,
{
    if p < q {
    } else if q < p {
    }
}

/// What one line says, counting lines from 1.
fn read_one(v: &Vec<char>, a: usize, b: usize, n: u64) -> (r: Option<Line>)
    requires
        a <= b <= v@.len(),
    ensures
        match r {
            Some(x) => read_line(v@.subrange(a as int, b as int), n as nat) == Some(x@),
            None => read_line(v@.subrange(a as int, b as int), n as nat) is None,
        },
{
    let ghost line = v@.subrange(a as int, b as int);
    let end = match find_in(v, a, b, '#') {
        Some(p) => {
            proof {
                let q = choose|q: int| crate::strings::first_index_of(line, '#', q);
                lemma_first_unique(line, '#', q, p - a);
                assert(v@.subrange(a as int, p as int) =~= line.subrange(0, p - a));
            }
            p
        },
        None => b,
    };
    assert(v@.subrange(a as int, end as int) == before(line, '#'));
    let (s, e) = strip(v, a, end, true, ' ');
    let ghost l = v@.subrange(s as int, e as int);
    assert(l == trim(before(line, '#')));
    if s == e || v[s] == '[' {
        return None;
    }
    match find_in(v, s, e, '=') {
        None => {
            let mut p = owned("line ");
            push_decimal(&mut p, n);
            p.append(": expected key = value");
            Some(Line::Problem(p))
        },
        Some(q) => {
            proof {
                let w = choose|w: int| crate::strings::first_index_of(l, '=', w);
                lemma_first_unique(l, '=', w, q - s);
                assert(v@.subrange(s as int, q as int) =~= l.subrange(0, q - s));
                assert(v@.subrange(q + 1, e as int) =~= l.subrange(q - s + 1, l.len() as int));
                assert(l.contains('='));
            }
            let (ks, ke) = strip(v, s, q, true, ' ');
            let (vs, ve) = strip(v, q + 1, e, true, ' ');
            let (us, ue) = strip(v, vs, ve, false, '"');
            let key = string_of(v, ks, ke);
            let value = string_of(v, us, ue);
            if str_eq(key.as_str(), "region") {
                Some(Line::Setting(Key::Region, value))
            } else if str_eq(key.as_str(), "home") {
                Some(Line::Setting(Key::Home, value))
            } else if str_eq(key.as_str(), "depth") {
                Some(Line::Setting(Key::Depth, value))
            } else {
                let mut p = owned("unknown setting ");
                p.append(key.as_str());
                Some(Line::Problem(p))
            }
        },
    }
}

/// What a settings file says, line by line: the settings it gives and
/// the lines it can't be read from, in order.
pub fn read_settings(text: &str) -> (r: Vec<Line>)
    ensures
        r@.map_values(|x: Line| x@) == read_lines(lines(text@), 1),
{
    let v = chars_of(text);
    let mut out: Vec<Line> = Vec::new();
    let mut a: usize = 0;
    let mut n: u64 = 1;
    let ghost whole = read_lines(lines(text@), 1);
    proof {
        assert(v@.subrange(0, v@.len() as int) =~= text@);
        assert(out@.map_values(|x: Line| x@) + whole =~= whole);
    }
    while a < v.len()
        invariant
            a <= v@.len(),
            v@ == text@,
            1 <= n <= a + 1,
            whole == read_lines(lines(text@), 1),
            whole == out@.map_values(|x: Line| x@) + read_lines(lines(v@.subrange(a as int, v@.len() as int)), n as nat),
        decreases v@.len() - a,
    {
        let ghost rest = v@.subrange(a as int, v@.len() as int);
        let ghost before_out = out@.map_values(|x: Line| x@);
        proof {
            crate::strings::lemma_index_or_len(rest, '\n');
        }
        let (b, next) = match find_in(&v, a, v.len(), '\n') {
            Some(p) => {
                proof {
                    if crate::strings::index_or_len(rest, '\n') < rest.len() {
                        lemma_first_unique(rest, '\n', crate::strings::index_or_len(rest, '\n') as int, p - a);
                    } else {
                        assert(rest[p - a] == '\n');
                    }
                }
                let b = if p > a && v[p - 1] == '\r' { p - 1 } else { p };
                proof {
                    assert(v@.subrange(a as int, p as int) =~= rest.subrange(0, p - a));
                    if p > a && v@[p - 1] == '\r' {
                        assert(v@.subrange(a as int, b as int) =~= rest.subrange(0, p - a).drop_last());
                    }
                    assert(v@.subrange(p + 1, v@.len() as int) =~= rest.subrange(p - a + 1, rest.len() as int));
                }
                (b, p + 1)
            },
            None => {
                proof {
                    if crate::strings::index_or_len(rest, '\n') < rest.len() {
                        assert(rest.contains('\n'));
                    }
                    assert(v@.subrange(a as int, v@.len() as int) =~= rest.subrange(0, rest.len() as int));
                }
                (v.len(), v.len())
            },
        };
        let got = read_one(&v, a, b, n);
        let ghost g = got;
        match got {
            Some(x) => {
                out.push(x);
            },
            None => {},
        }
        proof {
            let ls = lines(rest);
            assert(ls[0] == v@.subrange(a as int, b as int));
            if next == v@.len() {
                assert(v@.subrange(next as int, v@.len() as int) =~= Seq::<char>::empty());
                if crate::strings::index_or_len(rest, '\n') < rest.len() {
                    assert(rest.subrange(crate::strings::index_or_len(rest, '\n') as int + 1, rest.len() as int) =~= Seq::<char>::empty());
                }
            }
            assert(ls.drop_first() =~= lines(v@.subrange(next as int, v@.len() as int)));
            assert(out@.map_values(|x: Line| x@) =~= match g {
                Some(x) => before_out.push(x@),
                None => before_out,
            });
            assert(read_lines(ls, n as nat) == match read_line(ls[0], n as nat) {
                Some(x) => seq![x] + read_lines(ls.drop_first(), n as nat + 1),
                None => read_lines(ls.drop_first(), n as nat + 1),
            });
            match g {
                Some(x) => {
                    assert(before_out.push(x@) + read_lines(ls.drop_first(), n as nat + 1)
                        =~= before_out + (seq![x@] + read_lines(ls.drop_first(), n as nat + 1)));
                },
                None => {},
            }
        }
        a = next;
        if a < v.len() {
            n = n + 1;
        }
    }
    proof {
        assert(v@.subrange(a as int, v@.len() as int) =~= Seq::<char>::empty());
        assert(whole =~= out@.map_values(|x: Line| x@));
    }
    out
}

} // verus!
