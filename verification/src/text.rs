//! Character-level helpers: decimal numbers, searching and building strings.

use vstd::prelude::*;

verus! {

/// The ASCII digit for a value below ten.
pub open spec fn digit_char(d: nat) -> char {
    if d == 0 { '0' }
    else if d == 1 { '1' }
    else if d == 2 { '2' }
    else if d == 3 { '3' }
    else if d == 4 { '4' }
    else if d == 5 { '5' }
    else if d == 6 { '6' }
    else if d == 7 { '7' }
    else if d == 8 { '8' }
    else { '9' }
}

/// The value of an ASCII digit.
pub open spec fn char_digit(c: char) -> nat {
    (c as u32 - '0' as u32) as nat
}

pub open spec fn is_digit(c: char) -> bool {
    '0' <= c && c <= '9'
}

/// The decimal representation of a natural number, without leading zeros.
pub open spec fn dec(n: nat) -> Seq<char>
    decreases n,
{
    if n < 10 {
        seq![digit_char(n)]
    } else {
        dec(n / 10).push(digit_char(n % 10))
    }
}

/// The value of a sequence of decimal digits.
pub open spec fn digits_value(s: Seq<char>) -> nat
    decreases s.len(),
{
    if s.len() == 0 {
        0
    } else {
        digits_value(s.drop_last()) * 10 + char_digit(s.last())
    }
}

pub open spec fn all_digits(s: Seq<char>) -> bool {
    forall|i: int| 0 <= i < s.len() ==> is_digit(#[trigger] s[i])
}

/// What `str::parse::<usize>` accepts: an optional `+`, then one or more
/// ASCII digits whose value fits in a `usize`.
pub open spec fn parse_usize_spec(s: Seq<char>) -> Option<nat> {
    let digits = if s.len() > 0 && s[0] == '+' { s.drop_first() } else { s };
    if digits.len() > 0 && all_digits(digits) && digits_value(digits) <= usize::MAX {
        Some(digits_value(digits))
    } else {
        None
    }
}

/// Index of the first occurrence of `c` in `s` at or after `from`.
pub open spec fn first_index_from(s: Seq<char>, c: char, from: int) -> Option<int>
    decreases s.len() - from,
{
    if from < 0 || from >= s.len() {
        None
    } else if s[from] == c {
        Some(from)
    } else {
        first_index_from(s, c, from + 1)
    }
}

pub proof fn lemma_first_index_from(s: Seq<char>, c: char, from: int)
    requires
        0 <= from,
    ensures
        match first_index_from(s, c, from) {
            Some(i) => from <= i < s.len() && s[i] == c && forall|j: int| from <= j < i ==> s[j] != c,
            None => forall|j: int| from <= j < s.len() ==> s[j] != c,
        },
    decreases s.len() - from,
{
    if from < s.len() && s[from] != c {
        lemma_first_index_from(s, c, from + 1);
    }
}

/// Appends one character to a string.
#[verifier::external_body]
pub fn push_char(s: &mut String, c: char)
    ensures
        final(s)@ == old(s)@.push(c),
{
    s.push(c);
}

/// The characters of a string, one per element.
pub fn chars_of(s: &str) -> (r: Vec<char>)
    ensures
        r@ == s@,
{
    let n = s.unicode_len();
    let mut r: Vec<char> = Vec::new();
    let mut i: usize = 0;
    while i < n
        invariant
            n == s@.len(),
            i <= n,
            r@ == s@.take(i as int),
        decreases n - i,
    {
        let c = s.get_char(i);
        r.push(c);
        i = i + 1;
        assert(r@ =~= s@.take(i as int));
    }
    assert(r@ =~= s@);
    r
}

/// A string made of the given characters.
pub fn string_of(v: &Vec<char>) -> (r: String)
    ensures
        r@ == v@,
{
    let mut r = String::new();
    let mut i: usize = 0;
    while i < v.len()
        invariant
            i <= v.len(),
            r@ == v@.take(i as int),
        decreases v.len() - i,
    {
        push_char(&mut r, v[i]);
        i = i + 1;
        assert(r@ =~= v@.take(i as int));
    }
    assert(r@ =~= v@);
    r
}

/// A fresh string holding the given text.
pub fn own(s: &str) -> (r: String)
    ensures
        r@ == s@,
{
    String::from_str(s)
}

/// Concatenates two pieces of text into a fresh string.
pub fn cat(a: &str, b: &str) -> (r: String)
    ensures
        r@ == a@ + b@,
{
    let mut r = String::from_str(a);
    r.append(b);
    r
}

/// The decimal text of a number, as `to_string` writes it.
pub fn u64_to_string(n: u64) -> (r: String)
    ensures
        r@ == dec(n as nat),
    decreases n,
{
    if n < 10 {
        let mut r = String::new();
        push_char(&mut r, digit_of(n));
        assert(r@ =~= dec(n as nat));
        r
    } else {
        let mut r = u64_to_string(n / 10);
        push_char(&mut r, digit_of(n % 10));
        r
    }
}

/// The decimal text of a `usize`.
pub fn usize_to_string(n: usize) -> (r: String)
    ensures
        r@ == dec(n as nat),
{
    u64_to_string(n as u64)
}

fn digit_of(d: u64) -> (c: char)
    requires
        d < 10,
    ensures
        c == digit_char(d as nat),
{
    if d == 0 { '0' }
    else if d == 1 { '1' }
    else if d == 2 { '2' }
    else if d == 3 { '3' }
    else if d == 4 { '4' }
    else if d == 5 { '5' }
    else if d == 6 { '6' }
    else if d == 7 { '7' }
    else if d == 8 { '8' }
    else { '9' }
}

proof fn lemma_digits_value_take(s: Seq<char>, i: int)
    requires
        0 <= i < s.len(),
    ensures
        digits_value(s.take(i + 1)) == digits_value(s.take(i)) * 10 + char_digit(s[i]),
{
    assert(s.take(i + 1).drop_last() =~= s.take(i));
}

/// Parses decimal text as `str::parse::<usize>` does: `None` where that
/// call returns an error.
pub fn parse_usize(s: &Vec<char>) -> (r: Option<usize>)
    ensures
        match r {
            Some(v) => parse_usize_spec(s@) == Some(v as nat),
            None => parse_usize_spec(s@).is_none(),
        },
{
    let n = s.len();
    let start: usize = if n > 0 && s[0] == '+' { 1 } else { 0 };
    let ghost digits = if s@.len() > 0 && s@[0] == '+' { s@.drop_first() } else { s@ };
    assert(digits =~= s@.skip(start as int));
    if start >= n {
        return None;
    }
    let mut acc: usize = 0;
    let mut i: usize = start;
    while i < n
        invariant
            start <= i <= n,
            n == s@.len(),
            digits == (if s@.len() > 0 && s@[0] == '+' { s@.drop_first() } else { s@ }),
            digits =~= s@.skip(start as int),
            digits.len() > 0,
            all_digits(s@.skip(start as int).take(i - start)),
            acc as nat == digits_value(s@.skip(start as int).take(i - start)),
        decreases n - i,
    {
        let c = s[i];
        if !('0' <= c && c <= '9') {
            assert(!is_digit(digits[i - start]));
            return None;
        }
        let d: usize = ((c as u32) - ('0' as u32)) as usize;
        let ghost t = s@.skip(start as int);
        proof {
            lemma_digits_value_take(t, i - start);
            assert(t.take(i - start + 1) =~= t.take(i - start).push(c));
        }
        if acc > (usize::MAX - d) / 10 {
            proof {
                let m = usize::MAX as int;
                assert(acc as int * 10 + d as int > m) by (nonlinear_arith)
                    requires acc as int > (m - d as int) / 10, 0 <= d as int <= 9, m > 10;
                lemma_digits_monotone(t, i - start + 1, t.len() as int);
                assert(t.take(t.len() as int) =~= t);
            }
            return None;
        }
        acc = acc * 10 + d;
        i = i + 1;
    }
    assert(s@.skip(start as int).take(n - start) =~= digits);
    Some(acc)
}

/// Taking more digits never lowers the value.
pub proof fn lemma_digits_monotone(s: Seq<char>, i: int, j: int)
    requires
        0 <= i <= j <= s.len(),
    ensures
        digits_value(s.take(i)) <= digits_value(s.take(j)),
    decreases j - i,
{
    if i < j {
        lemma_digits_monotone(s, i, j - 1);
        lemma_digits_value_take(s, j - 1);
    }
}


/// The decimal text of an integer, with a leading `-` when negative.
pub open spec fn idec(n: int) -> Seq<char> {
    if n < 0 { seq!['-'] + dec((-n) as nat) } else { dec(n as nat) }
}

/// The decimal text of an `i64`, as `to_string` writes it.
pub fn i64_to_string(n: i64) -> (r: String)
    ensures
        r@ == idec(n as int),
{
    if n < 0 {
        let m: u64 = if n == i64::MIN { 9223372036854775808u64 } else { (-n) as u64 };
        let mut r = String::new();
        push_char(&mut r, '-');
        let d = u64_to_string(m);
        r.append(d.as_str());
        assert(r@ =~= idec(n as int));
        r
    } else {
        u64_to_string(n as u64)
    }
}

/// Whether `needle` occurs in `s`.
pub open spec fn has_text(s: Seq<char>, needle: Seq<char>) -> bool {
    exists|i: int| 0 <= i && i + needle.len() <= s.len() && #[trigger] s.subrange(i, i + needle.len()) == needle
}

/// Whether `needle` occurs in `s` (`str::contains`).
pub fn contains_text(s: &str, needle: &str) -> (b: bool)
    ensures
        b == has_text(s@, needle@),
{
    let a = chars_of(s);
    let t = chars_of(needle);
    let n = a.len();
    let m = t.len();
    if m > n {
        return false;
    }
    let mut i: usize = 0;
    while i <= n - m
        invariant
            a@ == s@,
            t@ == needle@,
            n == a@.len(),
            m == t@.len(),
            m <= n,
            i <= n - m + 1,
            forall|k: int| 0 <= k < i ==> #[trigger] a@.subrange(k, k + m) != t@,
        decreases n - m + 1 - i,
    {
        let mut j: usize = 0;
        let mut same = true;
        while j < m
            invariant
                j <= m,
                i + m <= n,
                n == a@.len(),
                m == t@.len(),
                same == (forall|q: int| 0 <= q < j ==> a@[i + q] == t@[q]),
            decreases m - j,
        {
            if a[i + j] != t[j] {
                same = false;
            }
            j = j + 1;
        }
        if same {
            assert(a@.subrange(i as int, i + m) =~= t@);
            return true;
        }
        proof {
            assert(a@.subrange(i as int, i + m) != t@) by {
                let q = choose|q: int| 0 <= q < m && a@[i + q] != t@[q];
                assert(a@.subrange(i as int, i + m)[q] == a@[i + q]);
            }
        }
        i = i + 1;
    }
    false
}

} // verus!
