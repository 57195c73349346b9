//! Clock reading and the parsing of repeat intervals such as `1d2h`.

use vstd::prelude::*;
use crate::text::{all_digits, chars_of, digits_value, parse_usize, parse_usize_spec, first_index_from, lemma_first_index_from};
use std::time::{Duration, SystemTime, SystemTimeError, UNIX_EPOCH};

verus! {

#[verifier::external_type_specification]
#[verifier::external_body]
pub struct ExSystemTime(SystemTime);

#[verifier::external_type_specification]
#[verifier::external_body]
pub struct ExSystemTimeError(SystemTimeError);

/// Reads the system clock with `SystemTime::now`; nothing is claimed of the
/// value, which depends on the moment of the call.
#[verifier::external_body]
fn system_now() -> SystemTime {
    SystemTime::now()
}

/// `SystemTime::duration_since(UNIX_EPOCH)`: an error where the time lies
/// before the epoch. Nothing more is claimed.
#[verifier::external_body]
fn since_epoch(t: &SystemTime) -> Result<Duration, SystemTimeError> {
    t.duration_since(UNIX_EPOCH)
}

/// `Duration::as_secs`: the whole seconds of a duration. Nothing is claimed
/// of the value, as `Duration` is opaque here.
#[verifier::external_body]
fn whole_secs(d: &Duration) -> u64 {
    d.as_secs()
}

/// A count of seconds as a `usize`, where it fits.
pub fn secs_to_usize(s: u64) -> (r: Option<usize>)
    ensures
        r == (if s <= usize::MAX { Some(s as usize) } else { None::<usize> }),
{
    if s <= usize::MAX as u64 {
        Some(s as usize)
    } else {
        None
    }
}

/// Seconds since the unix epoch, read from the system clock. `None` where
/// the clock reads a time before the epoch or the count does not fit a
/// `usize` (see `secs_to_usize`).
pub fn time_secs() -> (r: Option<usize>) {
    let now = system_now();
    match since_epoch(&now) {
        Ok(d) => secs_to_usize(whole_secs(&d)),
        Err(_) => None,
    }
}

/// What `str::to_lowercase` gives for a text (the Unicode lower case of each
/// character, by the standard library's tables).
pub uninterp spec fn lowercase_of(s: Seq<char>) -> Seq<char>;

/// `str::to_lowercase`, whose result the name `lowercase_of` stands for.
#[verifier::external_body]
pub(crate) fn to_lowercase(s: &str) -> (r: String)
    ensures
        r@ == lowercase_of(s@),
{
    s.to_lowercase()
}

/// Whether a text is `now` in any case: what lowercases to `now`, as `n`,
/// `o` and `w` are the lower case of those letters and of nothing else.
pub open spec fn is_now_text(s: Seq<char>) -> bool {
    &&& s.len() == 3
    &&& (s[0] == 'n' || s[0] == 'N')
    &&& (s[1] == 'o' || s[1] == 'O')
    &&& (s[2] == 'w' || s[2] == 'W')
}

/// Whether a text is `now` in any case.
pub fn is_now(s: &str) -> (b: bool)
    ensures
        b == is_now_text(s@),
{
    let c = chars_of(s);
    c.len() == 3 && (c[0] == 'n' || c[0] == 'N') && (c[1] == 'o' || c[1] == 'O') && (c[2] == 'w' || c[2] == 'W')
}

/// The unit letters, in the order they are read: year, week, day, hour,
/// minute, second.
pub open spec fn unit(k: int) -> char {
    if k == 0 { 'y' }
    else if k == 1 { 'w' }
    else if k == 2 { 'd' }
    else if k == 3 { 'h' }
    else if k == 4 { 'm' }
    else { 's' }
}

/// Seconds in each unit.
pub open spec fn unit_secs(k: int) -> nat {
    if k == 0 { 31557600 }
    else if k == 1 { 604800 }
    else if k == 2 { 86400 }
    else if k == 3 { 3600 }
    else if k == 4 { 60 }
    else { 1 }
}

/// The text after the first occurrence of `c` up to its next occurrence (or
/// the end): the second piece of `split(c)`.
pub open spec fn after_first(st: Seq<char>, c: char) -> Seq<char> {
    match first_index_from(st, c, 0) {
        None => st,
        Some(i) => match first_index_from(st, c, i + 1) {
            Some(j) => st.subrange(i + 1, j),
            None => st.subrange(i + 1, st.len() as int),
        },
    }
}

/// The seconds that units `k..6` of `st` add up to, read as `time_conv`
/// reads them: for each unit present, the number before it (the loop stops
/// at an empty one), then the rest up to the unit's next occurrence.
/// `None` where a number does not parse.
pub open spec fn interval_from(st: Seq<char>, k: int) -> Option<nat>
    decreases 6 - k,
{
    if k >= 6 || k < 0 {
        Some(0)
    } else {
        match first_index_from(st, unit(k), 0) {
            None => interval_from(st, k + 1),
            Some(i) => if i == 0 {
                Some(0)
            } else {
                match parse_usize_spec(st.take(i)) {
                    None => None,
                    Some(v) => match interval_from(after_first(st, unit(k)), k + 1) {
                        None => None,
                        Some(rest) => Some(unit_secs(k) * v + rest),
                    },
                }
            },
        }
    }
}

/// The number of seconds an interval text stands for: 0 for `now` (in any
/// case), else the sum over its units. `None` where a number does not parse.
pub open spec fn time_conv_spec(inp: Seq<char>) -> Option<nat> {
    if is_now_text(inp) {
        Some(0)
    } else {
        interval_from(inp, 0)
    }
}

fn unit_at(k: usize) -> (c: char)
    requires
        k < 6,
    ensures
        c == unit(k as int),
{
    if k == 0 { 'y' }
    else if k == 1 { 'w' }
    else if k == 2 { 'd' }
    else if k == 3 { 'h' }
    else if k == 4 { 'm' }
    else { 's' }
}

fn unit_secs_at(k: usize) -> (n: usize)
    requires
        k < 6,
    ensures
        n == unit_secs(k as int),
{
    if k == 0 { 31557600 }
    else if k == 1 { 604800 }
    else if k == 2 { 86400 }
    else if k == 3 { 3600 }
    else if k == 4 { 60 }
    else { 1 }
}

/// The first index of `c` in `v` at or after `from`.
pub fn find_from(v: &Vec<char>, c: char, from: usize) -> (r: Option<usize>)
    ensures
        match r {
            Some(i) => first_index_from(v@, c, from as int) == Some(i as int),
            None => first_index_from(v@, c, from as int).is_none(),
        },
{
    let mut i = from;
    while i < v.len()
        invariant
            from <= i,
            first_index_from(v@, c, from as int) == first_index_from(v@, c, i as int),
        decreases v.len() - i,
    {
        if v[i] == c {
            return Some(i);
        }
        i = i + 1;
    }
    None
}

/// The characters of `v` from `a` up to `b`.
pub fn sub_vec(v: &Vec<char>, a: usize, b: usize) -> (r: Vec<char>)
    requires
        a <= b <= v.len(),
    ensures
        r@ == v@.subrange(a as int, b as int),
{
    let mut r: Vec<char> = Vec::new();
    let mut i = a;
    while i < b
        invariant
            a <= i <= b <= v.len(),
            r@ == v@.subrange(a as int, i as int),
        decreases b - i,
    {
        r.push(v[i]);
        i = i + 1;
        assert(r@ =~= v@.subrange(a as int, i as int));
    }
    r
}

/// Converts a repeat interval such as `1y2w3d5m` into seconds. `now` (in
/// any case) is 0. Units are `y` (year), `w` (week), `d` (day), `h` (hour),
/// `m` (minute) and `s` (second); each number is read before the first
/// occurrence of its unit, and reading stops at a unit with nothing before it.
pub fn time_conv(inp: &String) -> (r: usize)
    requires
        time_conv_spec(inp@).is_some(),
        time_conv_spec(inp@).unwrap() <= usize::MAX,
    ensures
        r == time_conv_spec(inp@).unwrap(),
{
    match time_conv_checked(inp) {
        Some(n) => n,
        None => {
            assert(false);
            0
        },
    }
}

/// A text with no unit letter in it stands for no seconds.
pub proof fn lemma_no_units(s: Seq<char>, k: int)
    requires
        0 <= k,
        forall|i: int| 0 <= i < s.len() ==> ('0' <= #[trigger] s[i] <= '9' || s[i] == '+'),
    ensures
        interval_from(s, k) == Some(0nat),
    decreases 6 - k,
{
    if k < 6 {
        lemma_first_index_from(s, unit(k), 0);
        lemma_no_units(s, k + 1);
    }
}

/// A text that parses as a number stands for no seconds.
pub proof fn lemma_number_no_interval(s: Seq<char>)
    requires
        parse_usize_spec(s).is_some(),
    ensures
        time_conv_spec(s) == Some(0nat),
{
    let digits = if s.len() > 0 && s[0] == '+' { s.drop_first() } else { s };
    assert forall|i: int| 0 <= i < s.len() implies ('0' <= #[trigger] s[i] <= '9' || s[i] == '+') by {
        if s.len() > 0 && s[0] == '+' {
            if i > 0 {
                assert(s[i] == digits[i - 1]);
            }
        } else {
            assert(s[i] == digits[i]);
        }
    }
    lemma_no_units(s, 0);
}


/// The seconds one of each unit letter stands for: a year of 365.25 days,
/// a week, a day, an hour, a minute, a second.
pub open spec fn seconds_per(u: char) -> nat {
    if u == 'y' { 31557600 }
    else if u == 'w' { 604800 }
    else if u == 'd' { 86400 }
    else if u == 'h' { 3600 }
    else if u == 'm' { 60 }
    else { 1 }
}

proof fn lemma_skip_units(t: Seq<char>, u: char, k: int, k0: int)
    requires
        0 <= k <= k0 < 6,
        unit(k0) == u,
        forall|j: int| 0 <= j < t.len() - 1 ==> '0' <= #[trigger] t[j] <= '9',
        t.len() > 0,
        t.last() == u,
        forall|j: int| 0 <= j < k0 ==> unit(j) != u,
    ensures
        interval_from(t, k) == interval_from(t, k0),
    decreases k0 - k,
{
    if k < k0 {
        lemma_first_index_from(t, unit(k), 0);
        if first_index_from(t, unit(k), 0).is_some() {
            let i = first_index_from(t, unit(k), 0).unwrap();
            if i < t.len() - 1 {
                assert('0' <= t[i] <= '9');
            }
        }
        lemma_skip_units(t, u, k + 1, k0);
    }
}

/// A number followed by one unit letter stands for that many of the unit:
/// `5m` is five minutes, `2d` two days, and so on for `y`, `w`, `d`, `h`,
/// `m` and `s`.
pub proof fn law_time_conv_one_unit(s: Seq<char>, u: char)
    requires
        s.len() > 0,
        all_digits(s),
        digits_value(s) <= usize::MAX,
        u == 'y' || u == 'w' || u == 'd' || u == 'h' || u == 'm' || u == 's',
    ensures
        time_conv_spec(s.push(u)) == Some(digits_value(s) * seconds_per(u)),
{
    let t = s.push(u);
    assert(!is_now_text(t)) by {
        if is_now_text(t) {
            assert(t[0] == s[0]);
            assert(crate::text::is_digit(s[0]));
        }
    }
    let k0: int = if u == 'y' { 0 } else if u == 'w' { 1 } else if u == 'd' { 2 } else if u == 'h' { 3 } else if u == 'm' { 4 } else { 5 };
    assert forall|j: int| 0 <= j < t.len() - 1 implies '0' <= #[trigger] t[j] <= '9' by {
        assert(t[j] == s[j]);
        assert(crate::text::is_digit(s[j]));
    }
    lemma_skip_units(t, u, 0, k0);
    lemma_first_index_from(t, u, 0);
    let i = s.len() as int;
    assert(t[i] == u);
    assert(first_index_from(t, u, 0) == Some(i)) by {
        match first_index_from(t, u, 0) {
            Some(x) => {
                if x < i {
                    assert('0' <= t[x] <= '9');
                }
            },
            None => {
                assert(t[i] != u);
            },
        }
    }
    assert(t.take(i) =~= s);
    assert(s[0] != '+') by {
        assert(crate::text::is_digit(s[0]));
    }
    assert(parse_usize_spec(s) == Some(digits_value(s)));
    lemma_first_index_from(t, u, i + 1);
    assert(first_index_from(t, u, i + 1).is_none());
    let rest = after_first(t, u);
    assert(rest =~= Seq::<char>::empty());
    lemma_no_units(rest, k0 + 1);
    assert(unit_secs(k0) == seconds_per(u));
}

/// Converts a repeat interval into seconds where it can be: `None` where
/// a number does not parse or the total does not fit a `usize`.
pub fn time_conv_checked(inp: &String) -> (r: Option<usize>)
    ensures
        match r {
            Some(n) => time_conv_spec(inp@) == Some(n as nat),
            None => time_conv_spec(inp@).is_none() || time_conv_spec(inp@).unwrap() > usize::MAX,
        },
{
    if is_now(inp.as_str()) {
        return Some(0);
    }
    let mut st = chars_of(inp.as_str());
    let mut combine: usize = 0;
    let mut k: usize = 0;
    while k < 6
        invariant
            k <= 6,
            !is_now_text(inp@),
            match interval_from(st@, k as int) {
                Some(x) => time_conv_spec(inp@) == Some((combine + x) as nat),
                None => time_conv_spec(inp@).is_none(),
            },
        decreases 6 - k,
    {
        let c = unit_at(k);
        proof { lemma_first_index_from(st@, c, 0); }
        match find_from(&st, c, 0) {
            None => {
                k = k + 1;
            },
            Some(i) => {
                if i == 0 {
                    return Some(combine);
                }
                let head = sub_vec(&st, 0, i);
                assert(head@ =~= st@.take(i as int));
                let v = match parse_usize(&head) {
                    Some(v) => v,
                    None => {
                        return None;
                    },
                };
                let m = unit_secs_at(k);
                proof { lemma_first_index_from(st@, c, i as int + 1); }
                let end = match find_from(&st, c, i + 1) {
                    Some(j) => j,
                    None => st.len(),
                };
                let ghost rest_st = after_first(st@, c);
                let mv = match v.checked_mul(m) {
                    Some(x) => x,
                    None => {
                        proof {
                            match interval_from(rest_st, k + 1) {
                                Some(rest) => {
                                    assert(unit_secs(k as int) * v + rest >= unit_secs(k as int) * v);
                                    assert(v * m > usize::MAX);
                                    assert(unit_secs(k as int) * v == v * m) by (nonlinear_arith)
                                        requires m == unit_secs(k as int);
                                },
                                None => {},
                            }
                        }
                        return None;
                    },
                };
                let nc = match combine.checked_add(mv) {
                    Some(x) => x,
                    None => {
                        proof {
                            assert(unit_secs(k as int) * v == v * m) by (nonlinear_arith)
                                requires m == unit_secs(k as int);
                        }
                        return None;
                    },
                };
                proof {
                    assert(unit_secs(k as int) * v == v * m) by (nonlinear_arith)
                        requires m == unit_secs(k as int);
                }
                combine = nc;
                st = sub_vec(&st, i + 1, end);
                k = k + 1;
            },
        }
    }
    Some(combine)
}

} // verus!
