//! The command line: what the words after `omatide` ask for. Running it
//! (the engine, the downloads, the printing) is the caller's.

use vstd::prelude::*;
use vstd::string::StringExecFns;
use crate::station::Kind;
use crate::strings::{owned, str_eq, chars_of, string_of, push_decimal, push_char, decimal, parse_i64, parse_i64_spec};

verus! {

broadcast use vstd::string::group_string_axioms;

pub const USAGE: &'static str = "usage: omatide run [--socket PATH] [--keel PATH] [--no-keel]\n       omatide watch [--socket PATH]\n       omatide fetch [--region S,W,N,E]\n       omatide stations [tide|current] [--near LAT,LON] [--within NM]\n       omatide tide [STATION|LAT,LON] [--days N]\n       omatide current [STATION|LAT,LON] [--days N]\n       omatide bay [--at TIME]\n       omatide --version\n\nrun       serve the tide and the stream to Omahoy apps, following the boat\n          through omakeel. The socket defaults to\n          $XDG_RUNTIME_DIR/omatide/tide.sock and omakeel's to\n          $XDG_RUNTIME_DIR/omakeel/keel.sock.\nwatch     print the running engine's state as it changes.\nfetch     download every station in the region from NOAA, once. Everything\n          after it is worked out here, with no network: harmonic constants\n          are good for years.\nstations  list the stations omatide has.\ntide      the tide at a station, or at the nearest one to a position:\n          the height now and the highs and lows to come.\ncurrent   the stream at a station, or the nearest one: the set and drift\n          now, and the slacks and maximums to come.\nbay       the stream everywhere in San Francisco Bay at one moment.\n\nSettings: ~/.config/omatide/config.toml (region, home, depth).\nStations: ~/.local/share/omatide/stations.json";

/// The texts of a list of strings.
pub open spec fn string_views(s: Seq<String>) -> Seq<Seq<char>> {
    s.map_values(|w: String| w@)
}

/// The texts of a list of string slices.
pub open spec fn str_views(s: Seq<&str>) -> Seq<Seq<char>> {
    s.map_values(|w: &str| w@)
}

/// What a command line came to: bare words, `--flag value` pairs, and
/// `--flag` switches, in the order they were given.
pub struct Parsed {
    pub words: Vec<String>,
    pub pairs: Vec<(String, String)>,
    pub switches: Vec<String>,
}

/// The same, as values.
pub struct ParsedView {
    pub words: Seq<Seq<char>>,
    pub pairs: Seq<(Seq<char>, Seq<char>)>,
    pub switches: Seq<Seq<char>>,
}

impl View for Parsed {
    type V = ParsedView;

    open spec fn view(&self) -> ParsedView {
        ParsedView {
            words: string_views(self.words@),
            pairs: self.pairs@.map_values(|p: (String, String)| (p.0@, p.1@)),
            switches: string_views(self.switches@),
        }
    }
}

/// The value given last for a flag.
pub open spec fn last_value(pairs: Seq<(Seq<char>, Seq<char>)>, name: Seq<char>) -> Option<Seq<char>>
    decreases pairs.len(),
{
    if pairs.len() == 0 {
        None
    } else if pairs.last().0 == name {
        Some(pairs.last().1)
    } else {
        last_value(pairs.drop_last(), name)
    }
}

/// The message for something the command line can't take.
pub open spec fn unexpected(what: Seq<char>) -> Seq<char> {
    "unexpected '"@ + what + "'\n\n"@ + USAGE@
}

/// `--name` without its dashes, for an argument that has them.
pub open spec fn flag_name(arg: Seq<char>) -> Option<Seq<char>> {
    if arg.len() >= 2 && arg[0] == '-' && arg[1] == '-' {
        Some(arg.skip(2))
    } else {
        None
    }
}

/// Nothing read yet.
pub open spec fn empty_parsed() -> ParsedView {
    ParsedView { words: Seq::empty(), pairs: Seq::empty(), switches: Seq::empty() }
}

/// Reading the arguments from `i` on, having read `acc` so far.
pub open spec fn flags_from(args: Seq<Seq<char>>, i: int, pairs: Seq<Seq<char>>, switches: Seq<Seq<char>>, acc: ParsedView) -> Result<ParsedView, Seq<char>>
    decreases args.len() - i,
{
    if i < 0 || i >= args.len() {
        Ok(acc)
    } else {
        match flag_name(args[i]) {
            None => flags_from(args, i + 1, pairs, switches, ParsedView { words: acc.words.push(args[i]), ..acc }),
            Some(name) => if switches.contains(name) {
                flags_from(args, i + 1, pairs, switches, ParsedView { switches: acc.switches.push(name), ..acc })
            } else if pairs.contains(name) {
                if i + 1 < args.len() {
                    flags_from(args, i + 2, pairs, switches, ParsedView { pairs: acc.pairs.push((name, args[i + 1])), ..acc })
                } else {
                    Err(args[i] + " needs a value"@)
                }
            } else {
                Err(unexpected(args[i]))
            },
        }
    }
}

impl Parsed {
    /// The value given last for a flag.
    pub fn value(&self, name: &str) -> (r: Option<&str>)
        ensures
            match r {
                Some(v) => last_value(self@.pairs, name@) == Some(v@),
                None => last_value(self@.pairs, name@) is None,
            },
    {
        let mut k = self.pairs.len();
        assert(self@.pairs.take(k as int) =~= self@.pairs);
        while k > 0
            invariant
                k <= self.pairs@.len(),
                last_value(self@.pairs, name@) == last_value(self@.pairs.take(k as int), name@),
            decreases k,
        {
            assert(self@.pairs.take(k as int).drop_last() =~= self@.pairs.take(k - 1));
            if str_eq(self.pairs[k - 1].0.as_str(), name) {
                return Some(self.pairs[k - 1].1.as_str());
            }
            k -= 1;
        }
        None
    }

    /// Whether a switch was given.
    pub fn on(&self, name: &str) -> (r: bool)
        ensures
            r == self@.switches.contains(name@),
    {
        let mut i: usize = 0;
        while i < self.switches.len()
            invariant
                i <= self.switches@.len(),
                forall|j: int| 0 <= j < i ==> self@.switches[j] != name@,
            decreases self.switches@.len() - i,
        {
            if str_eq(self.switches[i].as_str(), name) {
                assert(self@.switches[i as int] == name@);
                return true;
            }
            i += 1;
        }
        false
    }

    /// A command that takes no bare words refuses one.
    pub fn no_words(&self) -> (r: Result<(), String>)
        ensures
            match r {
                Ok(_) => self@.words.len() == 0,
                Err(e) => self@.words.len() > 0 && e@ == unexpected(self@.words[0]),
            },
    {
        if self.words.len() == 0 {
            Ok(())
        } else {
            Err(unexpected_message(self.words[0].as_str()))
        }
    }
}

/// The message for something the command line can't take.
pub fn unexpected_message(what: &str) -> (r: String)
    ensures
        r@ == unexpected(what@),
{
    let mut e = owned("unexpected '");
    e.append(what);
    e.append("'\n\n");
    e.append(USAGE);
    e
}

/// Whether a name is among the ones given.
fn among(names: &[&str], name: &Vec<char>) -> (r: bool)
    ensures
        r == str_views(names@).contains(name@),
{
    let ghost views = str_views(names@);
    let mut i: usize = 0;
    while i < names.len()
        invariant
            i <= names@.len(),
            views == str_views(names@),
            forall|j: int| 0 <= j < i ==> views[j] != name@,
        decreases names@.len() - i,
    {
        let candidate = chars_of(names[i]);
        if crate::strings::chars_eq(&candidate, name) {
            assert(views[i as int] == name@);
            return true;
        }
        i += 1;
    }
    false
}

/// Reads a command line's arguments, given the flags that take a value
/// and the ones that don't.
pub fn flags(args: &Vec<String>, pairs: &[&str], switches: &[&str]) -> (r: Result<Parsed, String>)
    ensures
        ({
            let spec = flags_from(string_views(args@), 0, str_views(pairs@),
                str_views(switches@), empty_parsed());
            match r {
                Ok(p) => spec == Ok::<ParsedView, Seq<char>>(p@),
                Err(e) => spec == Err::<ParsedView, Seq<char>>(e@),
            }
        }),
{
    let ghost av = string_views(args@);
    let ghost pv = str_views(pairs@);
    let ghost sv = str_views(switches@);
    let ghost start = empty_parsed();
    let mut out = Parsed { words: Vec::new(), pairs: Vec::new(), switches: Vec::new() };
    assert(out@.words =~= start.words);
    assert(out@.pairs =~= start.pairs);
    assert(out@.switches =~= start.switches);
    let mut i: usize = 0;
    while i < args.len()
        invariant
            i <= args@.len(),
            av == string_views(args@),
            pv == str_views(pairs@),
            sv == str_views(switches@),
            start == empty_parsed(),
            flags_from(av, 0, pv, sv, start) == flags_from(av, i as int, pv, sv, out@),
        decreases args@.len() - i,
    {
        let arg = &args[i];
        let v = chars_of(arg.as_str());
        let is_flag = v.len() >= 2 && v[0] == '-' && v[1] == '-';
        if !is_flag {
            let ghost before = out@;
            out.words.push(arg.clone());
            assert(out@.words =~= before.words.push(av[i as int]));
            i += 1;
        } else {
            let name = string_of(&v, 2, v.len());
            let name_chars = chars_of(name.as_str());
            assert(name@ == av[i as int].skip(2));
            if among(switches, &name_chars) {
                let ghost before = out@;
                out.switches.push(name);
                assert(out@.switches =~= before.switches.push(av[i as int].skip(2)));
                i += 1;
            } else if among(pairs, &name_chars) {
                if i + 1 < args.len() {
                    let ghost before = out@;
                    out.pairs.push((name, args[i + 1].clone()));
                    assert(out@.pairs =~= before.pairs.push((av[i as int].skip(2), av[i + 1])));
                    i += 2;
                } else {
                    let mut e = arg.clone();
                    e.append(" needs a value");
                    proof {
                        assert(av[i as int] == arg@);
                        assert(flag_name(av[i as int]) == Some(name@));
                        assert(flags_from(av, i as int, pv, sv, out@) == Err::<ParsedView, Seq<char>>(e@));
                        assert(flags_from(av, 0, pv, sv, start) == Err::<ParsedView, Seq<char>>(e@));

                    }
                    return Err(e);
                }
            } else {
                let e = unexpected_message(arg.as_str());
                proof {
                    assert(av[i as int] == arg@);
                    assert(flag_name(av[i as int]) == Some(name@));
                    assert(flags_from(av, i as int, pv, sv, out@) == Err::<ParsedView, Seq<char>>(e@));
                    assert(flags_from(av, 0, pv, sv, start) == Err::<ParsedView, Seq<char>>(e@));
                }
                return Err(e);
            }
        }
    }
    Ok(out)
}

/// What the first word of a command line asks for.
#[derive(Clone, Copy, Debug, PartialEq, Eq, Structural)]
pub enum Command {
    /// Nothing at all: the usage is printed.
    Usage,
    Run,
    Watch,
    Fetch,
    Stations,
    Tide,
    Current,
    Bay,
    Version,
    Help,
}

/// Words joined by single spaces.
pub open spec fn joined(words: Seq<Seq<char>>) -> Seq<char>
    decreases words.len(),
{
    if words.len() == 0 {
        Seq::empty()
    } else if words.len() == 1 {
        words[0]
    } else {
        joined(words.drop_last()) + " "@ + words.last()
    }
}

/// What a command word names.
pub open spec fn command_spec(args: Seq<Seq<char>>) -> Result<Command, Seq<char>> {
    if args.len() == 0 {
        Ok(Command::Usage)
    } else {
        let w = args[0];
        if w == "run"@ {
            Ok(Command::Run)
        } else if w == "watch"@ {
            Ok(Command::Watch)
        } else if w == "fetch"@ {
            Ok(Command::Fetch)
        } else if w == "stations"@ {
            Ok(Command::Stations)
        } else if w == "tide"@ {
            Ok(Command::Tide)
        } else if w == "current"@ {
            Ok(Command::Current)
        } else if w == "bay"@ {
            Ok(Command::Bay)
        } else if w == "--version"@ || w == "version"@ {
            Ok(Command::Version)
        } else if w == "-h"@ || w == "--help"@ || w == "help"@ {
            Ok(Command::Help)
        } else {
            Err(unexpected(joined(args)))
        }
    }
}

/// Each command word names its own command, whatever follows it: `run`,
/// `watch`, `fetch`, `stations`, `tide`, `current` and `bay` each the
/// command of that name, `version` and `--version` the version, `help`,
/// `-h` and `--help` the usage; no words at all is the usage too.
pub proof fn lemma_command_words(args: Seq<Seq<char>>)
    ensures
        args.len() == 0 ==> command_spec(args) == Ok::<Command, Seq<char>>(Command::Usage),
        args.len() > 0 && args[0] == "run"@ ==> command_spec(args) == Ok::<Command, Seq<char>>(Command::Run),
        args.len() > 0 && args[0] == "watch"@ ==> command_spec(args) == Ok::<Command, Seq<char>>(Command::Watch),
        args.len() > 0 && args[0] == "fetch"@ ==> command_spec(args) == Ok::<Command, Seq<char>>(Command::Fetch),
        args.len() > 0 && args[0] == "stations"@ ==> command_spec(args) == Ok::<Command, Seq<char>>(Command::Stations),
        args.len() > 0 && args[0] == "tide"@ ==> command_spec(args) == Ok::<Command, Seq<char>>(Command::Tide),
        args.len() > 0 && args[0] == "current"@ ==> command_spec(args) == Ok::<Command, Seq<char>>(Command::Current),
        args.len() > 0 && args[0] == "bay"@ ==> command_spec(args) == Ok::<Command, Seq<char>>(Command::Bay),
        args.len() > 0 && (args[0] == "version"@ || args[0] == "--version"@)
            ==> command_spec(args) == Ok::<Command, Seq<char>>(Command::Version),
        args.len() > 0 && (args[0] == "help"@ || args[0] == "-h"@ || args[0] == "--help"@)
            ==> command_spec(args) == Ok::<Command, Seq<char>>(Command::Help),
{
    reveal_strlit("run");
    reveal_strlit("watch");
    reveal_strlit("fetch");
    reveal_strlit("stations");
    reveal_strlit("tide");
    reveal_strlit("current");
    reveal_strlit("bay");
    reveal_strlit("version");
    reveal_strlit("--version");
    reveal_strlit("help");
    reveal_strlit("-h");
    reveal_strlit("--help");
    assert("watch"@ != "run"@) by {
        assert("watch"@.len() != "run"@.len());
    }
    assert("fetch"@ != "run"@) by {
        assert("fetch"@.len() != "run"@.len());
    }
    assert("fetch"@ != "watch"@) by {
        assert("fetch"@[0] != "watch"@[0]);
    }
    assert("stations"@ != "run"@) by {
        assert("stations"@.len() != "run"@.len());
    }
    assert("stations"@ != "watch"@) by {
        assert("stations"@.len() != "watch"@.len());
    }
    assert("stations"@ != "fetch"@) by {
        assert("stations"@.len() != "fetch"@.len());
    }
    assert("tide"@ != "run"@) by {
        assert("tide"@.len() != "run"@.len());
    }
    assert("tide"@ != "watch"@) by {
        assert("tide"@.len() != "watch"@.len());
    }
    assert("tide"@ != "fetch"@) by {
        assert("tide"@.len() != "fetch"@.len());
    }
    assert("tide"@ != "stations"@) by {
        assert("tide"@.len() != "stations"@.len());
    }
    assert("current"@ != "run"@) by {
        assert("current"@.len() != "run"@.len());
    }
    assert("current"@ != "watch"@) by {
        assert("current"@.len() != "watch"@.len());
    }
    assert("current"@ != "fetch"@) by {
        assert("current"@.len() != "fetch"@.len());
    }
    assert("current"@ != "stations"@) by {
        assert("current"@.len() != "stations"@.len());
    }
    assert("current"@ != "tide"@) by {
        assert("current"@.len() != "tide"@.len());
    }
    assert("bay"@ != "run"@) by {
        assert("bay"@[0] != "run"@[0]);
    }
    assert("bay"@ != "watch"@) by {
        assert("bay"@.len() != "watch"@.len());
    }
    assert("bay"@ != "fetch"@) by {
        assert("bay"@.len() != "fetch"@.len());
    }
    assert("bay"@ != "stations"@) by {
        assert("bay"@.len() != "stations"@.len());
    }
    assert("bay"@ != "tide"@) by {
        assert("bay"@.len() != "tide"@.len());
    }
    assert("bay"@ != "current"@) by {
        assert("bay"@.len() != "current"@.len());
    }
    assert("--version"@ != "run"@) by {
        assert("--version"@.len() != "run"@.len());
    }
    assert("--version"@ != "watch"@) by {
        assert("--version"@.len() != "watch"@.len());
    }
    assert("--version"@ != "fetch"@) by {
        assert("--version"@.len() != "fetch"@.len());
    }
    assert("--version"@ != "stations"@) by {
        assert("--version"@.len() != "stations"@.len());
    }
    assert("--version"@ != "tide"@) by {
        assert("--version"@.len() != "tide"@.len());
    }
    assert("--version"@ != "current"@) by {
        assert("--version"@.len() != "current"@.len());
    }
    assert("--version"@ != "bay"@) by {
        assert("--version"@.len() != "bay"@.len());
    }
    assert("version"@ != "run"@) by {
        assert("version"@.len() != "run"@.len());
    }
    assert("version"@ != "watch"@) by {
        assert("version"@.len() != "watch"@.len());
    }
    assert("version"@ != "fetch"@) by {
        assert("version"@.len() != "fetch"@.len());
    }
    assert("version"@ != "stations"@) by {
        assert("version"@.len() != "stations"@.len());
    }
    assert("version"@ != "tide"@) by {
        assert("version"@.len() != "tide"@.len());
    }
    assert("version"@ != "current"@) by {
        assert("version"@[0] != "current"@[0]);
    }
    assert("version"@ != "bay"@) by {
        assert("version"@.len() != "bay"@.len());
    }
    assert("version"@ != "--version"@) by {
        assert("version"@.len() != "--version"@.len());
    }
    assert("-h"@ != "run"@) by {
        assert("-h"@.len() != "run"@.len());
    }
    assert("-h"@ != "watch"@) by {
        assert("-h"@.len() != "watch"@.len());
    }
    assert("-h"@ != "fetch"@) by {
        assert("-h"@.len() != "fetch"@.len());
    }
    assert("-h"@ != "stations"@) by {
        assert("-h"@.len() != "stations"@.len());
    }
    assert("-h"@ != "tide"@) by {
        assert("-h"@.len() != "tide"@.len());
    }
    assert("-h"@ != "current"@) by {
        assert("-h"@.len() != "current"@.len());
    }
    assert("-h"@ != "bay"@) by {
        assert("-h"@.len() != "bay"@.len());
    }
    assert("-h"@ != "--version"@) by {
        assert("-h"@.len() != "--version"@.len());
    }
    assert("-h"@ != "version"@) by {
        assert("-h"@.len() != "version"@.len());
    }
    assert("--help"@ != "run"@) by {
        assert("--help"@.len() != "run"@.len());
    }
    assert("--help"@ != "watch"@) by {
        assert("--help"@.len() != "watch"@.len());
    }
    assert("--help"@ != "fetch"@) by {
        assert("--help"@.len() != "fetch"@.len());
    }
    assert("--help"@ != "stations"@) by {
        assert("--help"@.len() != "stations"@.len());
    }
    assert("--help"@ != "tide"@) by {
        assert("--help"@.len() != "tide"@.len());
    }
    assert("--help"@ != "current"@) by {
        assert("--help"@.len() != "current"@.len());
    }
    assert("--help"@ != "bay"@) by {
        assert("--help"@.len() != "bay"@.len());
    }
    assert("--help"@ != "--version"@) by {
        assert("--help"@.len() != "--version"@.len());
    }
    assert("--help"@ != "version"@) by {
        assert("--help"@.len() != "version"@.len());
    }
    assert("--help"@ != "-h"@) by {
        assert("--help"@.len() != "-h"@.len());
    }
    assert("help"@ != "run"@) by {
        assert("help"@.len() != "run"@.len());
    }
    assert("help"@ != "watch"@) by {
        assert("help"@.len() != "watch"@.len());
    }
    assert("help"@ != "fetch"@) by {
        assert("help"@.len() != "fetch"@.len());
    }
    assert("help"@ != "stations"@) by {
        assert("help"@.len() != "stations"@.len());
    }
    assert("help"@ != "tide"@) by {
        assert("help"@[0] != "tide"@[0]);
    }
    assert("help"@ != "current"@) by {
        assert("help"@.len() != "current"@.len());
    }
    assert("help"@ != "bay"@) by {
        assert("help"@.len() != "bay"@.len());
    }
    assert("help"@ != "--version"@) by {
        assert("help"@.len() != "--version"@.len());
    }
    assert("help"@ != "version"@) by {
        assert("help"@.len() != "version"@.len());
    }
    assert("help"@ != "-h"@) by {
        assert("help"@.len() != "-h"@.len());
    }
    assert("help"@ != "--help"@) by {
        assert("help"@.len() != "--help"@.len());
    }
}

/// All the arguments, as they were typed.
fn join_args(args: &Vec<String>) -> (r: String)
    ensures
        r@ == joined(string_views(args@)),
{
    let ghost av = string_views(args@);
    let mut r = String::new();
    let mut i: usize = 0;
    while i < args.len()
        invariant
            i <= args@.len(),
            av == string_views(args@),
            r@ == joined(av.take(i as int)),
        decreases args@.len() - i,
    {
        if i > 0 {
            r.append(" ");
        }
        r.append(args[i].as_str());
        assert(av.take(i + 1).drop_last() =~= av.take(i as int));
        i += 1;
    }
    assert(av.take(args@.len() as int) =~= av);
    r
}

/// What the first word of a command line asks for.
pub fn command(args: &Vec<String>) -> (r: Result<Command, String>)
    ensures
        match r {
            Ok(c) => command_spec(string_views(args@)) == Ok::<Command, Seq<char>>(c),
            Err(e) => command_spec(string_views(args@)) == Err::<Command, Seq<char>>(e@),
        },
{
    if args.len() == 0 {
        return Ok(Command::Usage);
    }
    let w = args[0].as_str();
    if str_eq(w, "run") {
        Ok(Command::Run)
    } else if str_eq(w, "watch") {
        Ok(Command::Watch)
    } else if str_eq(w, "fetch") {
        Ok(Command::Fetch)
    } else if str_eq(w, "stations") {
        Ok(Command::Stations)
    } else if str_eq(w, "tide") {
        Ok(Command::Tide)
    } else if str_eq(w, "current") {
        Ok(Command::Current)
    } else if str_eq(w, "bay") {
        Ok(Command::Bay)
    } else if str_eq(w, "--version") || str_eq(w, "version") {
        Ok(Command::Version)
    } else if str_eq(w, "-h") || str_eq(w, "--help") || str_eq(w, "help") {
        Ok(Command::Help)
    } else {
        let all = join_args(args);
        Err(unexpected_message(all.as_str()))
    }
}

/// The kind `omatide stations` is limited to, if any.
pub fn kind_word(word: Option<&str>) -> (r: Result<Option<Kind>, String>)
    ensures
        match word {
            None => r == Ok::<Option<Kind>, String>(None),
            Some(w) => match r {
                Ok(k) => k is Some && Kind::spec_parse(w@) == k,
                Err(e) => Kind::spec_parse(w@) is None && e@ == unexpected(w@),
            },
        },
{
    match word {
        None => Ok(None),
        Some(w) => match Kind::parse(w) {
            Some(k) => Ok(Some(k)),
            None => Err(unexpected_message(w)),
        },
    }
}

/// How many days `omatide tide` and `omatide current` look ahead: two
/// unless asked, and 1 to 14.
pub fn days_asked(value: Option<&str>) -> (r: Result<i64, String>)
    ensures
        match value {
            None => r == Ok::<i64, String>(2),
            Some(v) => match parse_i64_spec(v@) {
                Some(n) => r == Ok::<i64, String>(if n < 1 { 1 } else if n > 14 { 14 } else { n }),
                None => r is Err && r->Err_0@ == "days: expected a number"@,
            },
        },
{
    match value {
        None => Ok(2),
        Some(v) => match parse_i64(v) {
            Some(n) => Ok(if n < 1 { 1 } else if n > 14 { 14 } else { n }),
            None => Err(owned("days: expected a number")),
        },
    }
}

/// Which station `omatide tide` and `omatide current` report on.
pub enum Asked {
    /// None named: the nearest to home.
    Home,
    /// A position, `LAT,LON`: the nearest to it.
    Position(String),
    /// A station's key.
    Key(String),
}

/// Reads the word naming a station: a word with a comma in it is a
/// position.
pub fn station_asked(word: Option<&str>) -> (r: Asked)
    ensures
        match word {
            None => r is Home,
            Some(w) => match r {
                Asked::Position(p) => w@.contains(',') && p@ == w@,
                Asked::Key(k) => !w@.contains(',') && k@ == w@,
                Asked::Home => false,
            },
        },
{
    match word {
        None => Asked::Home,
        Some(w) => {
            let v = chars_of(w);
            match crate::strings::find_char(&v, ',') {
                Some(_) => Asked::Position(owned(w)),
                None => Asked::Key(owned(w)),
            }
        },
    }
}

/// Two decimal digits, with a leading zero.
pub open spec fn two_digits(n: nat) -> Seq<char> {
    seq![crate::strings::digit_char(n / 10), crate::strings::digit_char(n % 10)]
}

/// `1h 45m`, for how long until a turn; `45m` under the hour. Minutes
/// and hours are counted toward zero and written as Rust writes `i64`s,
/// a time gone by with its sign before each number: `-1h -45m`.
pub open spec fn hours_and_minutes_spec(seconds: int) -> Seq<char> {
    let m: int = (if seconds < 0 { -seconds } else { seconds }) / 60;
    let sign = if seconds < 0 { "-"@ } else { Seq::<char>::empty() };
    if m / 60 == 0 {
        (if m > 0 { sign } else { Seq::<char>::empty() }) + decimal(m as nat) + "m"@
    } else {
        sign + decimal((m / 60) as nat) + "h "@
            + (if seconds < 0 && m % 60 > 0 { "-"@ + decimal((m % 60) as nat) } else { two_digits((m % 60) as nat) })
            + "m"@
    }
}

/// How long until a turn, in hours and minutes.
pub fn hours_and_minutes(seconds: i64) -> (r: String)
    ensures
        r@ == hours_and_minutes_spec(seconds as int),
{
    let magnitude: u64 = if seconds < 0 { (-(seconds as i128)) as u64 } else { seconds as u64 };
    let m: u64 = magnitude / 60;
    let mut r = String::new();
    if m / 60 == 0 {
        if seconds < 0 && m > 0 {
            r.append("-");
        }
        push_decimal(&mut r, m);
        r.append("m");
    } else {
        if seconds < 0 {
            r.append("-");
        }
        push_decimal(&mut r, m / 60);
        r.append("h ");
        let rest = m % 60;
        if seconds < 0 && rest > 0 {
            r.append("-");
            push_decimal(&mut r, rest);
        } else {
            push_char(&mut r, (((rest / 10) as u8) + 48) as char);
            push_char(&mut r, (((rest % 10) as u8) + 48) as char);
        }
        r.append("m");
    }
    proof {
        assert(r@ =~= hours_and_minutes_spec(seconds as int));
    }
    r
}

} // verus!
