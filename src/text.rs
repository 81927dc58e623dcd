//! Character-level text primitives shared by the config dialects: whitespace,
//! trimming, splitting on a separator, and decimal integers.
use vstd::prelude::*;

verus! {

broadcast use vstd::string::group_string_axioms;

/// Unicode `White_Space`, the set that `char::is_whitespace` and `str::trim` use.
pub open spec fn is_ws(c: char) -> bool {
    c == ' ' || ('\t' <= c && c <= '\r') || c == '\u{85}' || c == '\u{A0}' || c == '\u{1680}'
        || ('\u{2000}' <= c && c <= '\u{200A}') || c == '\u{2028}' || c == '\u{2029}'
        || c == '\u{202F}' || c == '\u{205F}' || c == '\u{3000}'
}

pub fn is_ws_char(c: char) -> (r: bool)
    ensures
        r == is_ws(c),
{
    c == ' ' || ('\t' <= c && c <= '\r') || c == '\u{85}' || c == '\u{A0}' || c == '\u{1680}'
        || ('\u{2000}' <= c && c <= '\u{200A}') || c == '\u{2028}' || c == '\u{2029}'
        || c == '\u{202F}' || c == '\u{205F}' || c == '\u{3000}'
}

pub open spec fn trim_start(s: Seq<char>) -> Seq<char>
    decreases s.len(),
{
    if s.len() > 0 && is_ws(s[0]) {
        trim_start(s.drop_first())
    } else {
        s
    }
}

pub open spec fn trim_end(s: Seq<char>) -> Seq<char>
    decreases s.len(),
{
    if s.len() > 0 && is_ws(s.last()) {
        trim_end(s.drop_last())
    } else {
        s
    }
}

pub open spec fn trim(s: Seq<char>) -> Seq<char> {
    trim_end(trim_start(s))
}

pub open spec fn starts_with(s: Seq<char>, p: Seq<char>) -> bool {
    p.len() <= s.len() && s.subrange(0, p.len() as int) == p
}

/// `s` with `p` removed from its front, where it stands there.
pub open spec fn after_prefix(s: Seq<char>, p: Seq<char>) -> Seq<char> {
    s.subrange(p.len() as int, s.len() as int)
}

pub open spec fn has_char(s: Seq<char>, c: char) -> bool {
    exists|i: int| 0 <= i < s.len() && s[i] == c
}

pub open spec fn is_first_index(s: Seq<char>, c: char, i: int) -> bool {
    0 <= i < s.len() && s[i] == c && forall|j: int| 0 <= j < i ==> s[j] != c
}

/// Index of the first `c` in `s`, or -1.
pub open spec fn first_index(s: Seq<char>, c: char) -> int {
    if exists|i: int| is_first_index(s, c, i) {
        choose|i: int| is_first_index(s, c, i)
    } else {
        -1
    }
}

/// The pieces of `s` between occurrences of `sep`, as `str::split` yields them.
pub open spec fn split_on(s: Seq<char>, sep: char) -> Seq<Seq<char>>
    decreases s.len(),
{
    let i = first_index(s, sep);
    if 0 <= i < s.len() {
        seq![s.subrange(0, i)] + split_on(s.subrange(i + 1, s.len() as int), sep)
    } else {
        seq![s]
    }
}

/// The lines of a text: the pieces between newline characters.
pub open spec fn lines_of(s: Seq<char>) -> Seq<Seq<char>> {
    split_on(s, '\n')
}

pub proof fn lemma_first_index_unique(s: Seq<char>, c: char, i: int)
    requires
        is_first_index(s, c, i),
    ensures
        first_index(s, c) == i,
{
    let k = choose|k: int| is_first_index(s, c, k);
    assert(is_first_index(s, c, k));
    if k < i {
        assert(s[k] != c);
    } else if k > i {
        assert(s[i] != c);
    }
}

pub proof fn lemma_first_index_none(s: Seq<char>, c: char)
    requires
        forall|j: int| 0 <= j < s.len() ==> s[j] != c,
    ensures
        first_index(s, c) == -1,
{
}

/// The characters of `s`.
pub fn chars_of(s: &str) -> (r: Vec<char>)
    ensures
        r@ == s@,
{
    let mut out: Vec<char> = Vec::new();
    proof {
        vstd::string::axiom_spec_iter(s);
    }
    for c in iter: s.chars()
        invariant
            out@ == iter.seq().subrange(0, iter.index() as int),
    {
        out.push(c);
        assert(out@ =~= iter.seq().subrange(0, iter.index() + 1));
    }
    assert(out@ =~= s@);
    out
}

/// Relies on `String`'s `FromIterator<&char>`: the string of exactly these characters.
#[verifier::external_body]
pub fn string_of(v: &[char]) -> (r: String)
    ensures
        r@ == v@,
{
    v.iter().collect()
}

/// Whether `s[i..to]` begins with `p`.
pub fn matches_at(s: &[char], i: usize, to: usize, p: &str) -> (r: bool)
    requires
        i <= to <= s@.len(),
    ensures
        r == starts_with(s@.subrange(i as int, to as int), p@),
{
    let n = p.unicode_len();
    if n > to - i {
        return false;
    }
    let mut j: usize = 0;
    while j < n
        invariant
            n == p@.len(),
            i + n <= to <= s@.len(),
            j <= n,
            forall|k: int| 0 <= k < j ==> s@[i + k] == p@[k],
        decreases n - j,
    {
        if s[i + j] != p.get_char(j) {
            assert(s@.subrange(i as int, to as int).subrange(0, n as int)[j as int] != p@[j as int]);
            return false;
        }
        j = j + 1;
    }
    assert(s@.subrange(i as int, to as int).subrange(0, n as int) =~= p@);
    true
}

/// Whether `s[from..to]` is exactly `p`.
pub fn range_is(s: &[char], from: usize, to: usize, p: &str) -> (r: bool)
    requires
        from <= to <= s@.len(),
    ensures
        r == (s@.subrange(from as int, to as int) == p@),
{
    let n = p.unicode_len();
    if n != to - from {
        return false;
    }
    let r = matches_at(s, from, to, p);
    assert(s@.subrange(from as int, to as int).subrange(0, n as int) =~= s@.subrange(
        from as int,
        to as int,
    ));
    r
}

/// Whether `s[from..to]` is exactly `v`.
pub fn range_eq(s: &[char], from: usize, to: usize, v: &[char]) -> (r: bool)
    requires
        from <= to <= s@.len(),
    ensures
        r == (s@.subrange(from as int, to as int) == v@),
{
    if v.len() != to - from {
        return false;
    }
    let mut j: usize = 0;
    while j < v.len()
        invariant
            v@.len() == to - from,
            from <= to <= s@.len(),
            j <= v@.len(),
            forall|k: int| 0 <= k < j ==> s@[from + k] == v@[k],
        decreases v@.len() - j,
    {
        if s[from + j] != v[j] {
            assert(s@.subrange(from as int, to as int)[j as int] != v@[j as int]);
            return false;
        }
        j = j + 1;
    }
    assert(s@.subrange(from as int, to as int) =~= v@);
    true
}

pub open spec fn contains_seq(s: Seq<char>, p: Seq<char>) -> bool {
    exists|i: int| 0 <= i <= s.len() && #[trigger] starts_with(s.subrange(i, s.len() as int), p)
}

/// Whether `p` occurs in `s[from..to]`.
pub fn range_contains(s: &[char], from: usize, to: usize, p: &str) -> (r: bool)
    requires
        from <= to <= s@.len(),
    ensures
        r == contains_seq(s@.subrange(from as int, to as int), p@),
{
    let ghost t = s@.subrange(from as int, to as int);
    let mut i = from;
    loop
        invariant
            from <= i <= to <= s@.len(),
            t == s@.subrange(from as int, to as int),
            forall|k: int| 0 <= k < i - from ==> !starts_with(#[trigger] t.subrange(k, t.len() as int), p@),
        decreases to - i,
    {
        let m = matches_at(s, i, to, p);
        assert(t.subrange(i - from, t.len() as int) =~= s@.subrange(i as int, to as int));
        if m {
            return true;
        }
        if i == to {
            proof {
                assert forall|k: int| 0 <= k <= t.len() implies !starts_with(#[trigger] t.subrange(k, t.len() as int), p@) by {
                    if k < i - from {
                    }
                }
            }
            return false;
        }
        i = i + 1;
    }
}

/// First index at or after `from` (and before `to`) holding `c`, or `to`.
pub fn find_char(s: &[char], from: usize, to: usize, c: char) -> (r: usize)
    requires
        from <= to <= s@.len(),
    ensures
        from <= r <= to,
        r < to ==> is_first_index(s@.subrange(from as int, to as int), c, r - from),
        r < to ==> first_index(s@.subrange(from as int, to as int), c) == r - from,
        r == to ==> first_index(s@.subrange(from as int, to as int), c) == -1,
        r == to ==> !has_char(s@.subrange(from as int, to as int), c),
{
    let mut i = from;
    while i < to
        invariant
            from <= i <= to <= s@.len(),
            forall|j: int| from <= j < i ==> s@[j] != c,
        decreases to - i,
    {
        if s[i] == c {
            proof {
                let t = s@.subrange(from as int, to as int);
                assert(is_first_index(t, c, i - from));
                lemma_first_index_unique(t, c, i - from);
            }
            return i;
        }
        i = i + 1;
    }
    proof {
        let t = s@.subrange(from as int, to as int);
        assert forall|j: int| 0 <= j < t.len() implies t[j] != c by {
            assert(t[j] == s@[from + j]);
        }
        lemma_first_index_none(t, c);
    }
    i
}

pub proof fn lemma_trim_start_step(s: Seq<char>, a: int, b: int)
    requires
        0 <= a < b <= s.len(),
        is_ws(s[a]),
    ensures
        trim_start(s.subrange(a, b)) == trim_start(s.subrange(a + 1, b)),
{
    assert(s.subrange(a, b).drop_first() =~= s.subrange(a + 1, b));
}

pub proof fn lemma_trim_end_step(s: Seq<char>, a: int, b: int)
    requires
        0 <= a < b <= s.len(),
        is_ws(s[b - 1]),
    ensures
        trim_end(s.subrange(a, b)) == trim_end(s.subrange(a, b - 1)),
{
    assert(s.subrange(a, b).drop_last() =~= s.subrange(a, b - 1));
}

/// Bounds of `trim(s[from..to])` inside `s`.
pub fn trim_bounds(s: &[char], from: usize, to: usize) -> (r: (usize, usize))
    requires
        from <= to <= s@.len(),
    ensures
        from <= r.0 <= r.1 <= to,
        s@.subrange(r.0 as int, r.1 as int) == trim(s@.subrange(from as int, to as int)),
        s@.subrange(r.0 as int, r.1 as int) == trim_start(s@.subrange(from as int, r.1 as int)),
{
    let mut a = from;
    while a < to && is_ws_char(s[a])
        invariant
            from <= a <= to <= s@.len(),
            trim_start(s@.subrange(from as int, to as int)) == trim_start(s@.subrange(a as int, to as int)),
            forall|k: int| from <= k < a ==> is_ws(s@[k]),
        decreases to - a,
    {
        proof {
            lemma_trim_start_step(s@, a as int, to as int);
        }
        a = a + 1;
    }
    assert(trim_start(s@.subrange(a as int, to as int)) == s@.subrange(a as int, to as int));
    let mut b = to;
    while b > a && is_ws_char(s[b - 1])
        invariant
            from <= a <= b <= to <= s@.len(),
            a < to ==> !is_ws(s@[a as int]),
            trim_end(s@.subrange(a as int, to as int)) == trim_end(s@.subrange(a as int, b as int)),
        decreases b - a,
    {
        proof {
            lemma_trim_end_step(s@, a as int, b as int);
        }
        b = b - 1;
    }
    proof {
        assert(trim_end(s@.subrange(a as int, b as int)) == s@.subrange(a as int, b as int));
        lemma_trim_start_prefix(s@, from as int, a as int, b as int);
    }
    (a, b)
}

/// Trimming the front of a shorter end gives the same start, when the kept part
/// begins with a non-blank character (or is empty).
proof fn lemma_trim_start_prefix(s: Seq<char>, from: int, a: int, b: int)
    requires
        0 <= from <= a <= b <= s.len(),
        forall|k: int| from <= k < a ==> is_ws(s[k]),
        a < b ==> !is_ws(s[a]),
    ensures
        trim_start(s.subrange(from, b)) == s.subrange(a, b),
    decreases a - from,
{
    if from < a {
        lemma_trim_start_step(s, from, b);
        lemma_trim_start_prefix(s, from + 1, a, b);
    } else {
        if a < b {
            assert(!is_ws(s.subrange(a, b)[0]));
        }
    }
}

pub open spec fn is_digit(c: char) -> bool {
    '0' <= c && c <= '9'
}

pub open spec fn digit_value(c: char) -> int {
    c as int - '0' as int
}

pub open spec fn all_digits(s: Seq<char>) -> bool {
    forall|i: int| 0 <= i < s.len() ==> is_digit(#[trigger] s[i])
}

/// The number that a run of decimal digits writes.
pub open spec fn digits_value(s: Seq<char>) -> int
    decreases s.len(),
{
    if s.len() == 0 {
        0
    } else {
        digits_value(s.drop_last()) * 10 + digit_value(s.last())
    }
}

/// A non-empty run of decimal digits, as the unsigned part of `str::parse` reads it.
pub open spec fn unsigned_value(s: Seq<char>) -> Option<int> {
    if s.len() > 0 && all_digits(s) {
        Some(digits_value(s))
    } else {
        None
    }
}

/// The integer that `s` writes, with an optional leading `+` or `-`, as integer
/// `parse` reads it before its range is checked.
pub open spec fn signed_value(s: Seq<char>) -> Option<int> {
    if s.len() > 0 && s[0] == '-' {
        match unsigned_value(s.drop_first()) {
            Some(v) => Some(-v),
            None => None,
        }
    } else if s.len() > 0 && s[0] == '+' {
        unsigned_value(s.drop_first())
    } else {
        unsigned_value(s)
    }
}

/// What `s.parse::<i32>()` gives.
pub open spec fn parse_i32_spec(s: Seq<char>) -> Option<i32> {
    match signed_value(s) {
        Some(v) => if i32::MIN <= v <= i32::MAX {
            Some(v as i32)
        } else {
            None
        },
        None => None,
    }
}

/// What `s.parse::<usize>()` gives: no minus sign is accepted.
pub open spec fn parse_usize_spec(s: Seq<char>) -> Option<usize> {
    let v = if s.len() > 0 && s[0] == '+' {
        unsigned_value(s.drop_first())
    } else {
        unsigned_value(s)
    };
    match v {
        Some(n) => if n <= usize::MAX {
            Some(n as usize)
        } else {
            None
        },
        None => None,
    }
}

proof fn lemma_digits_value_nonneg(s: Seq<char>)
    requires
        all_digits(s),
    ensures
        digits_value(s) >= 0,
    decreases s.len(),
{
    if s.len() > 0 {
        assert(is_digit(s[s.len() - 1]));
        assert(all_digits(s.drop_last())) by {
            assert forall|i: int| 0 <= i < s.drop_last().len() implies is_digit(
                #[trigger] s.drop_last()[i],
            ) by {
                assert(is_digit(s[i]));
            }
        }
        lemma_digits_value_nonneg(s.drop_last());
    }
}

proof fn lemma_digits_value_mono(s: Seq<char>, a: int, i: int, b: int)
    requires
        0 <= a <= i <= b <= s.len(),
        all_digits(s.subrange(a, b)),
    ensures
        digits_value(s.subrange(a, i)) <= digits_value(s.subrange(a, b)),
    decreases b - i,
{
    if i < b {
        let t = s.subrange(a, b);
        assert(s.subrange(a, b).drop_last() =~= s.subrange(a, b - 1));
        assert(all_digits(s.subrange(a, b - 1))) by {
            assert forall|k: int| 0 <= k < b - 1 - a implies is_digit(
                #[trigger] s.subrange(a, b - 1)[k],
            ) by {
                assert(is_digit(t[k]));
            }
        }
        lemma_digits_value_mono(s, a, i, b - 1);
        lemma_digits_value_nonneg(s.subrange(a, b - 1));
        assert(is_digit(t[b - a - 1]));
    }
}

/// Reads the digits of `s[from..to]` as a number of at most `limit`.
pub fn parse_digits(s: &[char], from: usize, to: usize, limit: u64) -> (r: Option<u64>)
    requires
        from <= to <= s@.len(),
    ensures
        r == (match unsigned_value(s@.subrange(from as int, to as int)) {
            Some(v) => if v <= limit {
                Some(v as u64)
            } else {
                None
            },
            None => None,
        }),
        r matches Some(v) ==> unsigned_value(s@.subrange(from as int, to as int)) == Some(v as int),
{
    let ghost t = s@.subrange(from as int, to as int);
    if from == to {
        return None;
    }
    let mut acc: u64 = 0;
    let mut i = from;
    while i < to
        invariant
            from <= i <= to <= s@.len(),
            t == s@.subrange(from as int, to as int),
            all_digits(s@.subrange(from as int, i as int)),
            acc as int == digits_value(s@.subrange(from as int, i as int)),
            acc <= limit,
        decreases to - i,
    {
        let c = s[i];
        if !('0' <= c && c <= '9') {
            assert(!is_digit(t[i - from]));
            return None;
        }
        let d = (c as u32 - '0' as u32) as u64;
        assert(s@.subrange(from as int, i + 1).drop_last() =~= s@.subrange(from as int, i as int));
        if d > limit || acc > (limit - d) / 10 {
            proof {
                assert(acc * 10 + d > limit) by (nonlinear_arith)
                    requires
                        d > limit || acc > (limit - d) / 10,
                        d <= 9,
                ;
                if all_digits(t) {
                    lemma_digits_value_mono(s@, from as int, i + 1, to as int);
                }
            }
            return None;
        }
        assert(acc * 10 + d <= limit) by (nonlinear_arith)
            requires
                d <= limit,
                acc <= (limit - d) / 10,
        ;
        acc = acc * 10 + d;
        i = i + 1;
        assert(all_digits(s@.subrange(from as int, i as int))) by {
            assert forall|k: int| 0 <= k < i - from implies is_digit(
                #[trigger] s@.subrange(from as int, i as int)[k],
            ) by {
                if k < i - 1 - from {
                    assert(s@.subrange(from as int, i as int)[k] == s@.subrange(
                        from as int,
                        i - 1,
                    )[k]);
                }
            }
        }
    }
    assert(t =~= s@.subrange(from as int, i as int));
    Some(acc)
}

/// `s[from..to].parse::<i32>()`.
pub fn parse_i32_at(s: &[char], from: usize, to: usize) -> (r: Option<i32>)
    requires
        from <= to <= s@.len(),
    ensures
        r == parse_i32_spec(s@.subrange(from as int, to as int)),
{
    let ghost t = s@.subrange(from as int, to as int);
    if from < to && s[from] == '-' {
        assert(t.drop_first() =~= s@.subrange(from + 1, to as int));
        match parse_digits(s, from + 1, to, 2147483648) {
            Some(v) => {
                assert(v <= 2147483648);
                let n: i64 = v as i64;
                assert(signed_value(t) == Some(-(v as int)));
                Some((0 - n) as i32)
            },
            None => {
                proof {
                    if let Some(v) = unsigned_value(t.drop_first()) {
                        assert(v > 2147483648);
                    }
                }
                None
            },
        }
    } else {
        let start = if from < to && s[from] == '+' {
            assert(t.drop_first() =~= s@.subrange(from + 1, to as int));
            from + 1
        } else {
            from
        };
        let r = parse_digits(s, start, to, 2147483647);
        proof {
            if let Some(v) = unsigned_value(s@.subrange(start as int, to as int)) {
                lemma_digits_value_nonneg(s@.subrange(start as int, to as int));
            }
        }
        assert(t.len() > 0 ==> t[0] != '-');
        match r {
            Some(v) => {
                assert(signed_value(t) == Some(v as int));
                Some(v as i32)
            },
            None => None,
        }
    }
}

/// `s[from..to].parse::<usize>()`.
pub fn parse_usize_at(s: &[char], from: usize, to: usize) -> (r: Option<usize>)
    requires
        from <= to <= s@.len(),
    ensures
        r == parse_usize_spec(s@.subrange(from as int, to as int)),
{
    let ghost t = s@.subrange(from as int, to as int);
    let start = if from < to && s[from] == '+' {
        assert(t.drop_first() =~= s@.subrange(from + 1, to as int));
        from + 1
    } else {
        from
    };
    let r = parse_digits(s, start, to, usize::MAX as u64);
    proof {
        if let Some(v) = unsigned_value(s@.subrange(start as int, to as int)) {
            lemma_digits_value_nonneg(s@.subrange(start as int, to as int));
        }
    }
    match r {
        Some(v) => Some(v as usize),
        None => None,
    }
}

pub open spec fn digit_char(d: nat) -> char {
    if d == 0 { '0' }
    else if d == 1 { '1' }
    else if d == 2 { '2' }
    else if d == 3 { '3' }
    else if d == 4 { '4' }
    else if d == 5 { '5' }
    else if d == 6 { '6' }
    else if d == 7 { '7' }
    else if d == 8 { '8' }
    else { '9' }
}

/// Decimal digits of `n`, as `{}` writes it.
pub open spec fn nat_text(n: nat) -> Seq<char>
    decreases n,
{
    if n < 10 {
        seq![digit_char(n)]
    } else {
        nat_text(n / 10).push(digit_char(n % 10))
    }
}

/// Decimal text of `i`, with a leading `-` when negative, as `{}` writes it.
pub open spec fn int_text(i: int) -> Seq<char> {
    if i < 0 {
        seq!['-'] + nat_text((-i) as nat)
    } else {
        nat_text(i as nat)
    }
}

fn digit_to_char(d: u64) -> (c: char)
    requires
        d < 10,
    ensures
        c == digit_char(d as nat),
{
    if d == 0 { '0' }
    else if d == 1 { '1' }
    else if d == 2 { '2' }
    else if d == 3 { '3' }
    else if d == 4 { '4' }
    else if d == 5 { '5' }
    else if d == 6 { '6' }
    else if d == 7 { '7' }
    else if d == 8 { '8' }
    else { '9' }
}

/// Appends the decimal digits of `n`.
pub fn push_nat(out: &mut Vec<char>, n: u64)
    ensures
        final(out)@ == old(out)@ + nat_text(n as nat),
    decreases n,
{
    if n >= 10 {
        push_nat(out, n / 10);
    }
    let c = digit_to_char(n % 10);
    out.push(c);
    proof {
        if n < 10 {
            assert(out@ =~= old(out)@ + nat_text(n as nat));
        } else {
            assert(out@ =~= old(out)@ + nat_text(n as nat));
        }
    }
}

/// Appends the decimal text of `i`.
pub fn push_int(out: &mut Vec<char>, i: i64)
    requires
        i > i64::MIN,
    ensures
        final(out)@ == old(out)@ + int_text(i as int),
{
    if i < 0 {
        out.push('-');
        push_nat(out, (0 - i) as u64);
        assert(out@ =~= old(out)@ + int_text(i as int));
    } else {
        push_nat(out, i as u64);
    }
}

/// Appends the characters of `p`.
pub fn push_str(out: &mut Vec<char>, p: &str)
    ensures
        final(out)@ == old(out)@ + p@,
{
    let n = p.unicode_len();
    let mut j: usize = 0;
    while j < n
        invariant
            n == p@.len(),
            j <= n,
            out@ == old(out)@ + p@.subrange(0, j as int),
        decreases n - j,
    {
        out.push(p.get_char(j));
        j = j + 1;
        assert(out@ =~= old(out)@ + p@.subrange(0, j as int));
    }
    assert(p@.subrange(0, n as int) =~= p@);
}

/// Appends the characters of `v`.
pub fn push_chars(out: &mut Vec<char>, v: &[char])
    ensures
        final(out)@ == old(out)@ + v@,
{
    let mut j: usize = 0;
    while j < v.len()
        invariant
            j <= v@.len(),
            out@ == old(out)@ + v@.subrange(0, j as int),
        decreases v@.len() - j,
    {
        out.push(v[j]);
        j = j + 1;
        assert(out@ =~= old(out)@ + v@.subrange(0, j as int));
    }
    assert(v@.subrange(0, v@.len() as int) =~= v@);
}

/// A copy of `s[from..to]`.
pub fn copy_range(s: &[char], from: usize, to: usize) -> (r: Vec<char>)
    requires
        from <= to <= s@.len(),
    ensures
        r@ == s@.subrange(from as int, to as int),
{
    let mut out: Vec<char> = Vec::new();
    let mut j = from;
    while j < to
        invariant
            from <= j <= to <= s@.len(),
            out@ == s@.subrange(from as int, j as int),
        decreases to - j,
    {
        out.push(s[j]);
        j = j + 1;
        assert(out@ =~= s@.subrange(from as int, j as int));
    }
    out
}

/// `split_on(s[from..to], sep)` unfolded once, where the first `sep` is at `e`.
proof fn lemma_split_step(s: Seq<char>, from: int, e: int, to: int, sep: char)
    requires
        0 <= from <= e < to <= s.len(),
        first_index(s.subrange(from, to), sep) == e - from,
    ensures
        split_on(s.subrange(from, to), sep) == seq![s.subrange(from, e)] + split_on(
            s.subrange(e + 1, to),
            sep,
        ),
{
    let t = s.subrange(from, to);
    assert(t.subrange(0, e - from) =~= s.subrange(from, e));
    assert(t.subrange(e - from + 1, t.len() as int) =~= s.subrange(e + 1, to));
}

/// The index ranges, inside `s`, of the pieces of `s[from..to]` split on `sep`.
pub fn split_ranges(s: &[char], from: usize, to: usize, sep: char) -> (r: Vec<(usize, usize)>)
    requires
        from <= to <= s@.len(),
    ensures
        r@.len() == split_on(s@.subrange(from as int, to as int), sep).len(),
        r@.len() >= 1,
        forall|k: int|
            0 <= k < r@.len() ==> from <= (#[trigger] r@[k]).0 <= r@[k].1 <= to && s@.subrange(
                r@[k].0 as int,
                r@[k].1 as int,
            ) == split_on(s@.subrange(from as int, to as int), sep)[k],
{
    let mut out: Vec<(usize, usize)> = Vec::new();
    let ghost whole = split_on(s@.subrange(from as int, to as int), sep);
    let ghost mut done: Seq<Seq<char>> = Seq::empty();
    let mut p = from;
    loop
        invariant
            from <= p <= to <= s@.len(),
            whole == split_on(s@.subrange(from as int, to as int), sep),
            whole == done + split_on(s@.subrange(p as int, to as int), sep),
            out@.len() == done.len(),
            forall|k: int|
                0 <= k < out@.len() ==> from <= (#[trigger] out@[k]).0 <= out@[k].1 <= to
                    && s@.subrange(out@[k].0 as int, out@[k].1 as int) == done[k],
        decreases to - p,
    {
        let e = find_char(s, p, to, sep);
        if e == to {
            proof {
                assert(split_on(s@.subrange(p as int, to as int), sep) == seq![
                    s@.subrange(p as int, to as int),
                ]);
                done = done.push(s@.subrange(p as int, to as int));
                assert(whole =~= done);
            }
            out.push((p, to));
            return out;
        }
        proof {
            lemma_split_step(s@, p as int, e as int, to as int, sep);
            assert(whole =~= done.push(s@.subrange(p as int, e as int)) + split_on(
                s@.subrange(e + 1, to as int),
                sep,
            ));
            done = done.push(s@.subrange(p as int, e as int));
        }
        out.push((p, e));
        p = e + 1;
    }
}

/// Index of the first blank character in `s`, or its length.
pub open spec fn first_ws(s: Seq<char>) -> int {
    if exists|i: int| 0 <= i < s.len() && is_ws(s[i]) && forall|j: int| 0 <= j < i ==> !is_ws(s[j]) {
        choose|i: int| 0 <= i < s.len() && is_ws(s[i]) && forall|j: int| 0 <= j < i ==> !is_ws(s[j])
    } else {
        s.len() as int
    }
}

/// The blank-separated words of `s`, as `str::split_whitespace` yields them.
pub open spec fn words(s: Seq<char>) -> Seq<Seq<char>>
    decreases s.len(),
{
    let t = trim_start(s);
    if t.len() == 0 {
        Seq::empty()
    } else {
        let i = first_ws(t);
        if 0 < i <= t.len() && t.len() <= s.len() {
            seq![t.subrange(0, i)] + words(t.subrange(i, t.len() as int))
        } else {
            Seq::empty()
        }
    }
}

pub proof fn lemma_trim_start_shorter(s: Seq<char>)
    ensures
        trim_start(s).len() <= s.len(),
        trim_start(s).len() > 0 ==> !is_ws(trim_start(s)[0]),
    decreases s.len(),
{
    if s.len() > 0 && is_ws(s[0]) {
        lemma_trim_start_shorter(s.drop_first());
    }
}

/// The index ranges, inside `s`, of the words of `s[from..to]`.
pub fn word_ranges(s: &[char], from: usize, to: usize) -> (r: Vec<(usize, usize)>)
    requires
        from <= to <= s@.len(),
    ensures
        r@.len() == words(s@.subrange(from as int, to as int)).len(),
        forall|k: int|
            0 <= k < r@.len() ==> from <= (#[trigger] r@[k]).0 <= r@[k].1 <= to && s@.subrange(
                r@[k].0 as int,
                r@[k].1 as int,
            ) == words(s@.subrange(from as int, to as int))[k],
{
    let mut out: Vec<(usize, usize)> = Vec::new();
    let ghost whole = words(s@.subrange(from as int, to as int));
    let ghost mut done: Seq<Seq<char>> = Seq::empty();
    let mut p = from;
    loop
        invariant
            from <= p <= to <= s@.len(),
            whole == words(s@.subrange(from as int, to as int)),
            whole == done + words(s@.subrange(p as int, to as int)),
            out@.len() == done.len(),
            forall|k: int|
                0 <= k < out@.len() ==> from <= (#[trigger] out@[k]).0 <= out@[k].1 <= to
                    && s@.subrange(out@[k].0 as int, out@[k].1 as int) == done[k],
        decreases to - p,
    {
        let mut q = p;
        while q < to && is_ws_char(s[q])
            invariant
                p <= q <= to <= s@.len(),
                forall|k: int| p <= k < q ==> is_ws(s@[k]),
            decreases to - q,
        {
            q = q + 1;
        }
        proof {
            lemma_trim_start_prefix(s@, p as int, q as int, to as int);
        }
        if q == to {
            assert(words(s@.subrange(p as int, to as int)) =~= Seq::<Seq<char>>::empty());
            assert(whole =~= done);
            return out;
        }
        let mut e = q;
        while e < to && !is_ws_char(s[e])
            invariant
                q <= e <= to <= s@.len(),
                forall|k: int| q <= k < e ==> !is_ws(s@[k]),
            decreases to - e,
        {
            e = e + 1;
        }
        proof {
            let t = s@.subrange(q as int, to as int);
            if e < to {
                assert(0 <= e - q < t.len() && is_ws(t[e - q]) && forall|j: int|
                    0 <= j < e - q ==> !is_ws(t[j]));
                let c = choose|i: int|
                    0 <= i < t.len() && is_ws(t[i]) && forall|j: int| 0 <= j < i ==> !is_ws(t[j]);
                if c < e - q {
                    assert(!is_ws(t[c]));
                }
                if c > e - q {
                    assert(!is_ws(t[e - q]));
                }
                assert(first_ws(t) == e - q);
            } else {
                assert(first_ws(t) == t.len());
            }
            assert(t.subrange(0, e - q) =~= s@.subrange(q as int, e as int));
            assert(t.subrange(e - q, t.len() as int) =~= s@.subrange(e as int, to as int));
            assert(words(s@.subrange(p as int, to as int)) == seq![s@.subrange(q as int, e as int)]
                + words(s@.subrange(e as int, to as int)));
            assert(whole =~= done.push(s@.subrange(q as int, e as int)) + words(
                s@.subrange(e as int, to as int),
            ));
            done = done.push(s@.subrange(q as int, e as int));
        }
        out.push((q, e));
        p = e;
    }
}

/// Start of `trim_start(s[from..to])` inside `s`.
pub fn skip_ws(s: &[char], from: usize, to: usize) -> (r: usize)
    requires
        from <= to <= s@.len(),
    ensures
        from <= r <= to,
        s@.subrange(r as int, to as int) == trim_start(s@.subrange(from as int, to as int)),
{
    let mut q = from;
    while q < to && is_ws_char(s[q])
        invariant
            from <= q <= to <= s@.len(),
            forall|k: int| from <= k < q ==> is_ws(s@[k]),
        decreases to - q,
    {
        q = q + 1;
    }
    proof {
        lemma_trim_start_prefix(s@, from as int, q as int, to as int);
    }
    q
}

/// First blank character at or after `from` (and before `to`), or `to`.
pub fn find_ws(s: &[char], from: usize, to: usize) -> (r: usize)
    requires
        from <= to <= s@.len(),
    ensures
        from <= r <= to,
        first_ws(s@.subrange(from as int, to as int)) == r - from,
{
    let ghost t = s@.subrange(from as int, to as int);
    let mut e = from;
    while e < to && !is_ws_char(s[e])
        invariant
            from <= e <= to <= s@.len(),
            forall|k: int| from <= k < e ==> !is_ws(s@[k]),
        decreases to - e,
    {
        e = e + 1;
    }
    proof {
        if e < to {
            assert(0 <= e - from < t.len() && is_ws(t[e - from]) && forall|j: int|
                0 <= j < e - from ==> !is_ws(t[j]));
            let c = choose|i: int|
                0 <= i < t.len() && is_ws(t[i]) && forall|j: int| 0 <= j < i ==> !is_ws(t[j]);
            if c < e - from {
                assert(!is_ws(t[c]));
            }
            if c > e - from {
                assert(!is_ws(t[e - from]));
            }
        }
    }
    e
}

/// `s` without the copies of `c` at its front.
pub open spec fn strip_start_char(s: Seq<char>, c: char) -> Seq<char>
    decreases s.len(),
{
    if s.len() > 0 && s[0] == c {
        strip_start_char(s.drop_first(), c)
    } else {
        s
    }
}

/// `s` without the copies of `c` at its end.
pub open spec fn strip_end_char(s: Seq<char>, c: char) -> Seq<char>
    decreases s.len(),
{
    if s.len() > 0 && s.last() == c {
        strip_end_char(s.drop_last(), c)
    } else {
        s
    }
}

/// `str::trim_matches(c)`: the copies of `c` at both ends removed.
pub open spec fn strip_char(s: Seq<char>, c: char) -> Seq<char> {
    strip_end_char(strip_start_char(s, c), c)
}

/// Bounds of `strip_char(s[from..to], c)` inside `s`.
pub fn strip_char_bounds(s: &[char], from: usize, to: usize, c: char) -> (r: (usize, usize))
    requires
        from <= to <= s@.len(),
    ensures
        from <= r.0 <= r.1 <= to,
        s@.subrange(r.0 as int, r.1 as int) == strip_char(s@.subrange(from as int, to as int), c),
{
    let mut a = from;
    while a < to && s[a] == c
        invariant
            from <= a <= to <= s@.len(),
            strip_start_char(s@.subrange(from as int, to as int), c) == strip_start_char(
                s@.subrange(a as int, to as int),
                c,
            ),
        decreases to - a,
    {
        assert(s@.subrange(a as int, to as int).drop_first() =~= s@.subrange(a + 1, to as int));
        a = a + 1;
    }
    let mut b = to;
    while b > a && s[b - 1] == c
        invariant
            from <= a <= b <= to <= s@.len(),
            strip_end_char(s@.subrange(a as int, to as int), c) == strip_end_char(
                s@.subrange(a as int, b as int),
                c,
            ),
        decreases b - a,
    {
        assert(s@.subrange(a as int, b as int).drop_last() =~= s@.subrange(a as int, b - 1));
        b = b - 1;
    }
    (a, b)
}

pub open spec fn is_last_index(s: Seq<char>, c: char, i: int) -> bool {
    0 <= i < s.len() && s[i] == c && forall|j: int| i < j < s.len() ==> s[j] != c
}

/// Index of the last `c` in `s`, or -1.
pub open spec fn last_index(s: Seq<char>, c: char) -> int {
    if exists|i: int| is_last_index(s, c, i) {
        choose|i: int| is_last_index(s, c, i)
    } else {
        -1
    }
}

/// Last index before `to` (and at or after `from`) holding `c`, as an offset
/// from `from`; -1 when there is none.
pub fn rfind_char(s: &[char], from: usize, to: usize, c: char) -> (r: Option<usize>)
    requires
        from <= to <= s@.len(),
    ensures
        match r {
            Some(i) => from <= i < to && last_index(s@.subrange(from as int, to as int), c) == i
                - from,
            None => last_index(s@.subrange(from as int, to as int), c) == -1,
        },
{
    let ghost t = s@.subrange(from as int, to as int);
    let mut i = to;
    while i > from
        invariant
            from <= i <= to <= s@.len(),
            t == s@.subrange(from as int, to as int),
            forall|j: int| i <= j < to ==> s@[j] != c,
        decreases i - from,
    {
        if s[i - 1] == c {
            proof {
                let k = (i - 1 - from) as int;
                assert(is_last_index(t, c, k));
                let q = choose|q: int| is_last_index(t, c, q);
                if q < k {
                    assert(t[k] != c);
                } else if q > k {
                    assert(t[q] == s@[from + q]);
                }
            }
            return Some(i - 1);
        }
        i = i - 1;
    }
    proof {
        if exists|q: int| is_last_index(t, c, q) {
            let q = choose|q: int| is_last_index(t, c, q);
            assert(t[q] == s@[from + q]);
        }
    }
    None
}

/// The lines joined with newlines between them.
pub open spec fn join_lines(ls: Seq<Seq<char>>) -> Seq<char>
    decreases ls.len(),
{
    if ls.len() == 0 {
        Seq::empty()
    } else if ls.len() == 1 {
        ls[0]
    } else {
        join_lines(ls.drop_last()) + "\n"@ + ls.last()
    }
}

} // verus!
