//! Character-level helpers shared by the rest of the crate: decimal
//! numbers, and the step between `&str` and a vector of its characters.

use vstd::prelude::*;
use vstd::std_specs::iter::IteratorSpec;

verus! {

broadcast use vstd::string::group_string_axioms;

/// The character for a decimal digit.
pub open spec fn digit_char(d: nat) -> char {
    ((d + 48) as u8) as char
}

/// A natural number written in decimal, most significant digit first,
/// with no leading zeros.
pub open spec fn decimal(n: nat) -> Seq<char>
    decreases n,
{
    if n < 10 {
        seq![digit_char(n)]
    } else {
        decimal(n / 10).push(digit_char(n % 10))
    }
}

/// Appends one character to a string (std's `String::push`).
#[verifier::external_body]
pub(crate) fn push_char(s: &mut String, c: char)
    ensures
        final(s)@ == old(s)@.push(c),
{
    s.push(c);
}

/// Appends `n` in decimal.
pub fn push_decimal(s: &mut String, n: u64)
    ensures
        final(s)@ == old(s)@ + decimal(n as nat),
    decreases n,
{
    if n >= 10 {
        push_decimal(s, n / 10);
    }
    let d: u8 = (n % 10) as u8;
    push_char(s, (d + 48) as char);
    proof {
        assert(decimal(n as nat) == (if n < 10 { seq![digit_char(n as nat)] } else { decimal((n / 10) as nat).push(digit_char((n % 10) as nat)) }));
    }
}

/// The characters of a string slice, in order.
pub fn chars_of(s: &str) -> (v: Vec<char>)
    ensures
        v@ == s@,
{
    let mut v: Vec<char> = Vec::new();
    for c in it: s.chars()
        invariant
            v@ == it.seq().take(it.index()),
    {
        v.push(c);
    }
    v
}

/// Whether two character sequences are the same.
pub fn chars_eq(a: &Vec<char>, b: &Vec<char>) -> (r: bool)
    ensures
        r == (a@ == b@),
{
    if a.len() != b.len() {
        return false;
    }
    let mut i: usize = 0;
    while i < a.len()
        invariant
            a@.len() == b@.len(),
            i <= a@.len(),
            forall|j: int| 0 <= j < i ==> a@[j] == b@[j],
        decreases a@.len() - i,
    {
        if a[i] != b[i] {
            return false;
        }
        i += 1;
    }
    assert(a@ =~= b@);
    true
}

/// Whether two string slices hold the same characters.
pub fn str_eq(a: &str, b: &str) -> (r: bool)
    ensures
        r == (a@ == b@),
{
    let x = chars_of(a);
    let y = chars_of(b);
    chars_eq(&x, &y)
}

/// A string holding a copy of a slice.
pub fn owned(s: &str) -> (r: String)
    ensures
        r@ == s@,
{
    s.to_owned()
}

/// A string of some of the characters held in a vector.
pub fn string_of(v: &Vec<char>, from: usize, to: usize) -> (r: String)
    requires
        from <= to <= v@.len(),
    ensures
        r@ == v@.subrange(from as int, to as int),
{
    let mut r = String::new();
    let mut i = from;
    while i < to
        invariant
            from <= i <= to,
            to <= v@.len(),
            r@ == v@.subrange(from as int, i as int),
        decreases to - i,
    {
        push_char(&mut r, v[i]);
        assert(v@.subrange(from as int, i + 1) =~= v@.subrange(from as int, i as int).push(v@[i as int]));
        i += 1;
    }
    r
}

/// Where a character first occurs.
pub open spec fn first_index_of(s: Seq<char>, c: char, i: int) -> bool {
    0 <= i < s.len() && s[i] == c && forall|j: int| 0 <= j < i ==> s[j] != c
}

/// Where a character first occurs in a text, or the text's length when
/// it does not occur.
pub open spec fn index_or_len(s: Seq<char>, c: char) -> nat
    decreases s.len(),
{
    if s.len() == 0 || s[0] == c {
        0
    } else {
        1 + index_or_len(s.drop_first(), c)
    }
}

/// `index_or_len` is the first place of the character, or the length
/// when the text lacks it.
pub proof fn lemma_index_or_len(s: Seq<char>, c: char)
    ensures
        index_or_len(s, c) <= s.len(),
        index_or_len(s, c) < s.len() ==> first_index_of(s, c, index_or_len(s, c) as int),
        index_or_len(s, c) == s.len() ==> !s.contains(c),
    decreases s.len(),
{
    if s.len() == 0 {
    } else if s[0] == c {
    } else {
        let t = s.drop_first();
        lemma_index_or_len(t, c);
        let r = index_or_len(s, c) as int;
        if r < s.len() {
            assert forall|j: int| 0 <= j < r implies s[j] != c by {
                if j > 0 {
                    assert(s[j] == t[j - 1]);
                }
            }
        } else {
            assert forall|i: int| 0 <= i < s.len() implies s[i] != c by {
                if i > 0 {
                    assert(s[i] == t[i - 1]);
                }
            }
        }
    }
}

/// The first place a character occurs in a vector, if it does.
pub fn find_char(v: &Vec<char>, c: char) -> (r: Option<usize>)
    ensures
        match r {
            Some(i) => first_index_of(v@, c, i as int),
            None => !v@.contains(c),
        },
{
    let mut i: usize = 0;
    while i < v.len()
        invariant
            i <= v@.len(),
            forall|j: int| 0 <= j < i ==> v@[j] != c,
        decreases v@.len() - i,
    {
        if v[i] == c {
            return Some(i);
        }
        i += 1;
    }
    None
}

/// Whether a character is an ASCII decimal digit.
pub open spec fn is_digit(c: char) -> bool {
    '0' <= c && c <= '9'
}

/// The number written by a run of decimal digits.
pub open spec fn digits_value(s: Seq<char>) -> nat
    decreases s.len(),
{
    if s.len() == 0 {
        0
    } else {
        digits_value(s.drop_last()) * 10 + ((s.last() as int - 48) as nat)
    }
}

/// The text after a leading `+`, if there is one.
pub open spec fn unsigned_part(s: Seq<char>) -> Seq<char> {
    if s.len() > 0 && s[0] == '+' {
        s.drop_first()
    } else {
        s
    }
}

/// Every character is a decimal digit.
pub open spec fn all_digits(t: Seq<char>) -> bool {
    forall|i: int| 0 <= i < t.len() ==> is_digit(#[trigger] t[i])
}

/// What Rust's `str::parse::<u32>` reads: an optional `+`, then one or
/// more decimal digits whose number fits in 32 bits.
pub open spec fn parse_u32_spec(s: Seq<char>) -> Option<u32> {
    let t = unsigned_part(s);
    if t.len() > 0 && all_digits(t) && digits_value(t) <= u32::MAX {
        Some(digits_value(t) as u32)
    } else {
        None
    }
}

proof fn lemma_digits_grow(t: Seq<char>, i: int)
    requires
        0 <= i <= t.len(),
        forall|j: int| 0 <= j < t.len() ==> is_digit(#[trigger] t[j]),
    ensures
        digits_value(t.subrange(0, i)) <= digits_value(t),
    decreases t.len() - i,
{
    if i < t.len() {
        lemma_digits_grow(t, i + 1);
        assert(t.subrange(0, i + 1).drop_last() =~= t.subrange(0, i));
        assert(is_digit(t[i]));
    } else {
        assert(t.subrange(0, i) =~= t);
    }
}

/// A decimal number, as Rust's `str::parse::<u32>` reads one.
pub fn parse_u32(v: &Vec<char>, from: usize) -> (r: Option<u32>)
    requires
        from <= v@.len(),
    ensures
        r == parse_u32_spec(v@.subrange(from as int, v@.len() as int)),
{
    let ghost s = v@.subrange(from as int, v@.len() as int);
    let mut start = from;
    if from < v.len() && v[from] == '+' {
        start = from + 1;
    }
    let ghost t = v@.subrange(start as int, v@.len() as int);
    assert(t =~= unsigned_part(s));
    if start == v.len() {
        return None;
    }
    let mut value: u64 = 0;
    let mut i = start;
    while i < v.len()
        invariant
            start <= i <= v@.len(),
            start < v@.len(),
            from <= start,
            s == v@.subrange(from as int, v@.len() as int),
            t == unsigned_part(s),
            t == v@.subrange(start as int, v@.len() as int),
            value <= u32::MAX,
            forall|j: int| start <= j < i ==> is_digit(#[trigger] v@[j]),
            value == digits_value(v@.subrange(start as int, i as int)),
        decreases v@.len() - i,
    {
        let c = v[i];
        if !('0' <= c && c <= '9') {
            assert(t[i - start] == c);
            assert(!is_digit(t[i - start]));
            return None;
        }
        let d: u64 = (c as u64) - 48;
        assert(v@.subrange(start as int, i + 1).drop_last() =~= v@.subrange(start as int, i as int));
        assert(v@.subrange(start as int, i + 1).last() == c);
        let next: u64 = value * 10 + d;
        assert(next == digits_value(v@.subrange(start as int, i + 1)));
        if next > 4294967295 {
            proof {
                if all_digits(t) {
                    lemma_digits_grow(t, i + 1 - start);
                    assert(t.subrange(0, i + 1 - start) =~= v@.subrange(start as int, i + 1));
                }
            }
            return None;
        }
        value = next;
        i += 1;
    }
    assert(v@.subrange(start as int, i as int) =~= t);
    Some(value as u32)
}

/// The number written by the decimal digits from `from` on, when there
/// are some, all of them are digits, and it is at most `max`.
pub open spec fn digits_within(t: Seq<char>, max: nat) -> Option<nat> {
    if t.len() > 0 && all_digits(t) && digits_value(t) <= max {
        Some(digits_value(t))
    } else {
        None
    }
}

/// Reads decimal digits up to the end, refusing any other character, an
/// empty run, and a number over `max`.
pub fn parse_digits(v: &Vec<char>, from: usize, max: u64) -> (r: Option<u64>)
    requires
        from <= v@.len(),
    ensures
        match r {
            Some(n) => digits_within(v@.subrange(from as int, v@.len() as int), max as nat) == Some(n as nat),
            None => digits_within(v@.subrange(from as int, v@.len() as int), max as nat) is None,
        },
{
    let ghost t = v@.subrange(from as int, v@.len() as int);
    if from == v.len() {
        return None;
    }
    let mut value: u128 = 0;
    let mut i = from;
    while i < v.len()
        invariant
            from <= i <= v@.len(),
            from < v@.len(),
                t == v@.subrange(from as int, v@.len() as int),
            value <= max,
            forall|j: int| from <= j < i ==> is_digit(#[trigger] v@[j]),
            value == digits_value(v@.subrange(from as int, i as int)),
        decreases v@.len() - i,
    {
        let c = v[i];
        if !('0' <= c && c <= '9') {
            assert(t[i - from] == c);
            assert(!is_digit(t[i - from]));
            return None;
        }
        let d: u128 = (c as u128) - 48;
        assert(v@.subrange(from as int, i + 1).drop_last() =~= v@.subrange(from as int, i as int));
        assert(v@.subrange(from as int, i + 1).last() == c);
        let next: u128 = value * 10 + d;
        assert(next == digits_value(v@.subrange(from as int, i + 1)));
        if next > max as u128 {
            proof {
                if all_digits(t) {
                    lemma_digits_grow(t, i + 1 - from);
                    assert(t.subrange(0, i + 1 - from) =~= v@.subrange(from as int, i + 1));
                }
            }
            return None;
        }
        value = next;
        i += 1;
    }
    assert(v@.subrange(from as int, i as int) =~= t);
    Some(value as u64)
}

/// What Rust's `str::parse::<i64>` reads: an optional sign, then one or
/// more decimal digits whose number fits in 64 bits.
pub open spec fn parse_i64_spec(s: Seq<char>) -> Option<i64> {
    if s.len() > 0 && s[0] == '-' {
        match digits_within(s.drop_first(), 9223372036854775808) {
            Some(n) => Some((0 - n) as i64),
            None => None,
        }
    } else {
        match digits_within(unsigned_part(s), 9223372036854775807) {
            Some(n) => Some(n as i64),
            None => None,
        }
    }
}

/// A whole number, as Rust's `str::parse::<i64>` reads one.
pub fn parse_i64(s: &str) -> (r: Option<i64>)
    ensures
        r == parse_i64_spec(s@),
{
    let v = chars_of(s);
    assert(v@.subrange(0, v@.len() as int) =~= v@);
    if v.len() > 0 && v[0] == '-' {
        assert(v@.subrange(1, v@.len() as int) =~= s@.drop_first());
        match parse_digits(&v, 1, 9223372036854775808) {
            Some(n) => {
                if n == 9223372036854775808 {
                    Some(-9223372036854775807i64 - 1)
                } else {
                    Some(0 - (n as i64))
                }
            },
            None => None,
        }
    } else {
        let start: usize = if v.len() > 0 && v[0] == '+' { 1 } else { 0 };
        assert(v@.subrange(start as int, v@.len() as int) =~= unsigned_part(s@));
        match parse_digits(&v, start, 9223372036854775807) {
            Some(n) => Some(n as i64),
            None => None,
        }
    }
}

} // verus!
