//! The 37 harmonic constituents NOAA publishes for a station: how each
//! is named, and how its node factor is worked out.
//!
//! The arithmetic of a constituent (its speed, its argument, its node
//! factor) is floating point and lives with the predictions. What is here
//! is the table's order and names, by which a station's constants are
//! read, and the kinds of nodal correction.

use vstd::prelude::*;
use crate::strings::chars_of;

verus! {

/// How a constituent's node factor and nodal phase are worked out.
/// Shallow-water constituents take the product of their parents' factors
/// and the sum of their phases, which is what the compound kinds mean.
#[derive(Clone, Copy, Debug, PartialEq, Eq, Structural)]
pub enum Kind {
    /// Solar: no nodal correction at all.
    Fixed,
    M2,
    M2Squared,
    M2Cubed,
    M2Fourth,
    O1,
    K1,
    K2,
    /// M2 × K1, for MK3.
    M2K1,
    /// M2² ÷ K1, for 2MK3.
    M2SquaredOverK1,
    J1,
    Oo1,
    Mm,
    Mf,
    M3,
    M1,
    L2,
}

/// How many constituents NOAA publishes.
pub const COUNT: usize = 37;

/// NOAA's name for the constituent at a place in its harmonic-constants
/// listing.
pub open spec fn spec_name(i: int) -> Seq<char> {
    if i == 0 {
        seq!['M', '2']
    } else if i == 1 {
        seq!['S', '2']
    } else if i == 2 {
        seq!['N', '2']
    } else if i == 3 {
        seq!['K', '1']
    } else if i == 4 {
        seq!['M', '4']
    } else if i == 5 {
        seq!['O', '1']
    } else if i == 6 {
        seq!['M', '6']
    } else if i == 7 {
        seq!['M', 'K', '3']
    } else if i == 8 {
        seq!['S', '4']
    } else if i == 9 {
        seq!['M', 'N', '4']
    } else if i == 10 {
        seq!['N', 'U', '2']
    } else if i == 11 {
        seq!['S', '6']
    } else if i == 12 {
        seq!['M', 'U', '2']
    } else if i == 13 {
        seq!['2', 'N', '2']
    } else if i == 14 {
        seq!['O', 'O', '1']
    } else if i == 15 {
        seq!['L', 'A', 'M', '2']
    } else if i == 16 {
        seq!['S', '1']
    } else if i == 17 {
        seq!['M', '1']
    } else if i == 18 {
        seq!['J', '1']
    } else if i == 19 {
        seq!['M', 'M']
    } else if i == 20 {
        seq!['S', 'S', 'A']
    } else if i == 21 {
        seq!['S', 'A']
    } else if i == 22 {
        seq!['M', 'S', 'F']
    } else if i == 23 {
        seq!['M', 'F']
    } else if i == 24 {
        seq!['R', 'H', 'O']
    } else if i == 25 {
        seq!['Q', '1']
    } else if i == 26 {
        seq!['T', '2']
    } else if i == 27 {
        seq!['R', '2']
    } else if i == 28 {
        seq!['2', 'Q', '1']
    } else if i == 29 {
        seq!['P', '1']
    } else if i == 30 {
        seq!['2', 'S', 'M', '2']
    } else if i == 31 {
        seq!['M', '3']
    } else if i == 32 {
        seq!['L', '2']
    } else if i == 33 {
        seq!['2', 'M', 'K', '3']
    } else if i == 34 {
        seq!['K', '2']
    } else if i == 35 {
        seq!['M', '8']
    } else if i == 36 {
        seq!['M', 'S', '4']
    } else {
        Seq::empty()
    }
}

/// NOAA's name for the constituent at a place in the table, in the order
/// its harmonic-constants service lists them.
pub fn name(i: usize) -> (r: &'static str)
    requires
        i < COUNT,
    ensures
        r@ == spec_name(i as int),
{
    match i {
        0 => {
            proof {
                reveal_strlit("M2");
            }
            "M2"
        },
        1 => {
            proof {
                reveal_strlit("S2");
            }
            "S2"
        },
        2 => {
            proof {
                reveal_strlit("N2");
            }
            "N2"
        },
        3 => {
            proof {
                reveal_strlit("K1");
            }
            "K1"
        },
        4 => {
            proof {
                reveal_strlit("M4");
            }
            "M4"
        },
        5 => {
            proof {
                reveal_strlit("O1");
            }
            "O1"
        },
        6 => {
            proof {
                reveal_strlit("M6");
            }
            "M6"
        },
        7 => {
            proof {
                reveal_strlit("MK3");
            }
            "MK3"
        },
        8 => {
            proof {
                reveal_strlit("S4");
            }
            "S4"
        },
        9 => {
            proof {
                reveal_strlit("MN4");
            }
            "MN4"
        },
        10 => {
            proof {
                reveal_strlit("NU2");
            }
            "NU2"
        },
        11 => {
            proof {
                reveal_strlit("S6");
            }
            "S6"
        },
        12 => {
            proof {
                reveal_strlit("MU2");
            }
            "MU2"
        },
        13 => {
            proof {
                reveal_strlit("2N2");
            }
            "2N2"
        },
        14 => {
            proof {
                reveal_strlit("OO1");
            }
            "OO1"
        },
        15 => {
            proof {
                reveal_strlit("LAM2");
            }
            "LAM2"
        },
        16 => {
            proof {
                reveal_strlit("S1");
            }
            "S1"
        },
        17 => {
            proof {
                reveal_strlit("M1");
            }
            "M1"
        },
        18 => {
            proof {
                reveal_strlit("J1");
            }
            "J1"
        },
        19 => {
            proof {
                reveal_strlit("MM");
            }
            "MM"
        },
        20 => {
            proof {
                reveal_strlit("SSA");
            }
            "SSA"
        },
        21 => {
            proof {
                reveal_strlit("SA");
            }
            "SA"
        },
        22 => {
            proof {
                reveal_strlit("MSF");
            }
            "MSF"
        },
        23 => {
            proof {
                reveal_strlit("MF");
            }
            "MF"
        },
        24 => {
            proof {
                reveal_strlit("RHO");
            }
            "RHO"
        },
        25 => {
            proof {
                reveal_strlit("Q1");
            }
            "Q1"
        },
        26 => {
            proof {
                reveal_strlit("T2");
            }
            "T2"
        },
        27 => {
            proof {
                reveal_strlit("R2");
            }
            "R2"
        },
        28 => {
            proof {
                reveal_strlit("2Q1");
            }
            "2Q1"
        },
        29 => {
            proof {
                reveal_strlit("P1");
            }
            "P1"
        },
        30 => {
            proof {
                reveal_strlit("2SM2");
            }
            "2SM2"
        },
        31 => {
            proof {
                reveal_strlit("M3");
            }
            "M3"
        },
        32 => {
            proof {
                reveal_strlit("L2");
            }
            "L2"
        },
        33 => {
            proof {
                reveal_strlit("2MK3");
            }
            "2MK3"
        },
        34 => {
            proof {
                reveal_strlit("K2");
            }
            "K2"
        },
        35 => {
            proof {
                reveal_strlit("M8");
            }
            "M8"
        },
        36 => {
            proof {
                reveal_strlit("MS4");
            }
            "MS4"
        },
        _ => {
            proof {
                reveal_strlit("MS4");
            }
            "MS4"
        },
    }
}

/// A character with ASCII capitals made small.
pub open spec fn ascii_lower(c: char) -> char {
    if 'A' <= c && c <= 'Z' {
        ((c as u32) + 32) as char
    } else {
        c
    }
}

/// The same text, ignoring the case of ASCII letters.
pub open spec fn eq_ignore_ascii_case(a: Seq<char>, b: Seq<char>) -> bool {
    a.len() == b.len() && forall|i: int| 0 <= i < a.len() ==> ascii_lower(#[trigger] a[i]) == ascii_lower(b[i])
}

fn lower(c: char) -> (r: char)
    ensures
        r == ascii_lower(c),
{
    if 'A' <= c && c <= 'Z' {
        ((c as u8) + 32) as char
    } else {
        c
    }
}

fn same_ignoring_case(a: &Vec<char>, b: &Vec<char>) -> (r: bool)
    ensures
        r == eq_ignore_ascii_case(a@, b@),
{
    if a.len() != b.len() {
        return false;
    }
    let mut i: usize = 0;
    while i < a.len()
        invariant
            a@.len() == b@.len(),
            i <= a@.len(),
            forall|j: int| 0 <= j < i ==> ascii_lower(#[trigger] a@[j]) == ascii_lower(b@[j]),
        decreases a@.len() - i,
    {
        if lower(a[i]) != lower(b[i]) {
            return false;
        }
        i += 1;
    }
    true
}

/// Where a constituent sits in the table, by NOAA's name for it, in
/// either case.
pub fn index_of(name_wanted: &str) -> (r: Option<usize>)
    ensures
        match r {
            Some(i) => i < COUNT && eq_ignore_ascii_case(spec_name(i as int), name_wanted@)
                && forall|j: int| 0 <= j < i ==> !eq_ignore_ascii_case(#[trigger] spec_name(j), name_wanted@),
            None => forall|j: int| 0 <= j < COUNT ==> !eq_ignore_ascii_case(#[trigger] spec_name(j), name_wanted@),
        },
{
    let wanted = chars_of(name_wanted);
    let mut i: usize = 0;
    while i < COUNT
        invariant
            i <= COUNT,
            wanted@ == name_wanted@,
            forall|j: int| 0 <= j < i ==> !eq_ignore_ascii_case(#[trigger] spec_name(j), name_wanted@),
        decreases COUNT - i,
    {
        let candidate = chars_of(name(i));
        if same_ignoring_case(&candidate, &wanted) {
            return Some(i);
        }
        i += 1;
    }
    None
}


/// NOAA's constituents in the order its harmonic-constants service lists
/// them, as its documentation names them.
pub open spec fn noaa_listing() -> Seq<Seq<char>> {
    seq!["M2"@, "S2"@, "N2"@, "K1"@, "M4"@, "O1"@, "M6"@, "MK3"@, "S4"@, "MN4"@, "NU2"@, "S6"@, "MU2"@, "2N2"@, "OO1"@, "LAM2"@, "S1"@, "M1"@, "J1"@, "MM"@, "SSA"@, "SA"@, "MSF"@, "MF"@, "RHO"@, "Q1"@, "T2"@, "R2"@, "2Q1"@, "P1"@, "2SM2"@, "M3"@, "L2"@, "2MK3"@, "K2"@, "M8"@, "MS4"@]
}

/// The table keeps NOAA's listing order: the constituent at each place
/// is the one NOAA lists there, so constants read by name land where the
/// predictor looks for them.
pub proof fn lemma_table_follows_noaa(i: int)
    requires
        0 <= i < COUNT,
    ensures
        spec_name(i) == noaa_listing()[i],
        noaa_listing().len() == COUNT,
{
    reveal_strlit("M2");
    reveal_strlit("S2");
    reveal_strlit("N2");
    reveal_strlit("K1");
    reveal_strlit("M4");
    reveal_strlit("O1");
    reveal_strlit("M6");
    reveal_strlit("MK3");
    reveal_strlit("S4");
    reveal_strlit("MN4");
    reveal_strlit("NU2");
    reveal_strlit("S6");
    reveal_strlit("MU2");
    reveal_strlit("2N2");
    reveal_strlit("OO1");
    reveal_strlit("LAM2");
    reveal_strlit("S1");
    reveal_strlit("M1");
    reveal_strlit("J1");
    reveal_strlit("MM");
    reveal_strlit("SSA");
    reveal_strlit("SA");
    reveal_strlit("MSF");
    reveal_strlit("MF");
    reveal_strlit("RHO");
    reveal_strlit("Q1");
    reveal_strlit("T2");
    reveal_strlit("R2");
    reveal_strlit("2Q1");
    reveal_strlit("P1");
    reveal_strlit("2SM2");
    reveal_strlit("M3");
    reveal_strlit("L2");
    reveal_strlit("2MK3");
    reveal_strlit("K2");
    reveal_strlit("M8");
    reveal_strlit("MS4");
    assert(noaa_listing().len() == 37);
    assert(spec_name(i) =~= noaa_listing()[i]);
}

} // verus!
