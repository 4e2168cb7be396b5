use vstd::prelude::*;
use vstd::string::*;

verus! {

/// Seconds in a day.
pub const SECONDS_PER_DAY: u64 = 86400;

/// Seconds in an hour.
pub const SECONDS_PER_HOUR: u64 = 3600;

/// Seconds in a minute.
pub const SECONDS_PER_MINUTE: u64 = 60;

/// A duration string that does not follow the `<number><unit>` token grammar,
/// or whose exact total does not fit a 64-bit scaled integer with at most
/// `MAX_PLACES` decimal places.
#[derive(Debug, Clone, Copy, PartialEq, Eq, Structural)]
pub struct FormatError;

/// The characters that separate tokens: Unicode `White_Space`.
pub open spec fn is_space(c: char) -> bool {
    let u = c as u32;
    u == 0x20 || (0x09 <= u && u <= 0x0d) || u == 0x85 || u == 0xa0 || u == 0x1680 || (0x2000
        <= u && u <= 0x200a) || u == 0x2028 || u == 0x2029 || u == 0x202f || u == 0x205f || u
        == 0x3000
}

pub open spec fn is_digit(c: char) -> bool {
    0x30 <= (c as u32) && (c as u32) <= 0x39
}

pub open spec fn digit_value(c: char) -> nat {
    ((c as u32) - 0x30) as nat
}

/// How many seconds one unit of the suffix `c` stands for.
pub open spec fn unit_seconds(c: char) -> Option<nat> {
    if c == 'd' {
        Some(86400)
    } else if c == 'h' {
        Some(3600)
    } else if c == 'm' {
        Some(60)
    } else if c == 's' {
        Some(1)
    } else {
        None
    }
}

pub open spec fn all_digits(t: Seq<char>) -> bool {
    forall|i: int| 0 <= i < t.len() ==> is_digit(#[trigger] t[i])
}

/// The number that a sequence of decimal digits denotes.
pub open spec fn digits_value(t: Seq<char>) -> nat
    decreases t.len(),
{
    if t.len() == 0 {
        0
    } else {
        digits_value(t.drop_last()) * 10 + digit_value(t.last())
    }
}

/// `10` to the power `k`.
pub open spec fn pow10(k: nat) -> nat
    decreases k,
{
    if k == 0 {
        1
    } else {
        10 * pow10((k - 1) as nat)
    }
}

/// Position of the first `'.'` of `n` from position `k` on, or `n.len()`.
pub open spec fn first_dot_from(n: Seq<char>, k: int) -> int
    decreases n.len() - k,
{
    if k < 0 || k >= n.len() {
        n.len() as int
    } else if n[k] == '.' {
        k
    } else {
        first_dot_from(n, k + 1)
    }
}

pub open spec fn first_dot(n: Seq<char>) -> int {
    first_dot_from(n, 0)
}

/// The digits of a number before its decimal point.
pub open spec fn integer_part(n: Seq<char>) -> Seq<char> {
    n.subrange(0, first_dot(n))
}

/// The digits of a number after its decimal point; empty when it has none.
pub open spec fn fraction_part(n: Seq<char>) -> Seq<char> {
    if first_dot(n) < n.len() {
        n.subrange(first_dot(n) + 1, n.len() as int)
    } else {
        Seq::empty()
    }
}

/// How many decimal places the number `n` is written with.
pub open spec fn decimal_places(n: Seq<char>) -> nat {
    fraction_part(n).len()
}

/// `n` is a non-negative decimal number: digits, optionally followed by a
/// point and more digits.
pub open spec fn is_decimal(n: Seq<char>) -> bool {
    &&& integer_part(n).len() > 0
    &&& all_digits(integer_part(n))
    &&& all_digits(fraction_part(n))
    &&& first_dot(n) < n.len() ==> fraction_part(n).len() > 0
}

/// The decimal number `n` times `10^k`, when that is a whole number.
pub open spec fn scaled_number(n: Seq<char>, k: nat) -> Option<nat> {
    if is_decimal(n) && decimal_places(n) <= k {
        Some(
            digits_value(integer_part(n)) * pow10(k) + digits_value(fraction_part(n)) * pow10(
                (k - decimal_places(n)) as nat,
            ),
        )
    } else {
        None
    }
}

/// The seconds one token stands for, times `10^k`: a decimal number followed
/// by exactly one unit suffix.
pub open spec fn token_scaled(t: Seq<char>, k: nat) -> Option<nat> {
    if t.len() >= 1 && unit_seconds(t.last()) is Some && scaled_number(t.drop_last(), k) is Some {
        Some(scaled_number(t.drop_last(), k).unwrap() * unit_seconds(t.last()).unwrap())
    } else {
        None
    }
}

/// Number of non-space characters of `s` from position `i` on, up to the next space.
pub open spec fn token_len(s: Seq<char>, i: int) -> nat
    decreases s.len() - i,
{
    if i < 0 || i >= s.len() || is_space(s[i]) {
        0
    } else {
        1 + token_len(s, i + 1)
    }
}

pub open spec fn add_opt(a: nat, b: Option<nat>) -> Option<nat> {
    match b {
        Some(v) => Some(a + v),
        None => None,
    }
}

/// The total in seconds, times `10^k`, of the tokens of `s` from position `i`
/// on; `None` when one of them is malformed.
pub open spec fn total_from(s: Seq<char>, i: int, k: nat) -> Option<nat>
    decreases s.len() - i,
    via total_from_decreases
{
    if i < 0 || i >= s.len() {
        Some(0)
    } else if is_space(s[i]) {
        total_from(s, i + 1, k)
    } else {
        let j = i + 1 + token_len(s, i + 1);
        match token_scaled(s.subrange(i, j), k) {
            Some(v) => add_opt(v, total_from(s, j, k)),
            None => None,
        }
    }
}

/// The most decimal places that a token of `s` from position `i` on is written with.
pub open spec fn places_from(s: Seq<char>, i: int) -> nat
    decreases s.len() - i,
    via places_from_decreases
{
    if i < 0 || i >= s.len() {
        0
    } else if is_space(s[i]) {
        places_from(s, i + 1)
    } else {
        let j = i + 1 + token_len(s, i + 1);
        let p = decimal_places(s.subrange(i, j - 1));
        let q = places_from(s, j);
        if p > q {
            p
        } else {
            q
        }
    }
}

/// The decimal places in which the duration `s` is stated exactly.
pub open spec fn duration_places(s: Seq<char>) -> nat {
    places_from(s, 0)
}

/// The total duration that `s` denotes, as `(scaled, places)`, meaning
/// `scaled / 10^places` seconds; `None` if `s` is malformed.
pub open spec fn duration_seconds(s: Seq<char>) -> Option<(nat, nat)> {
    match total_from(s, 0, duration_places(s)) {
        Some(v) => Some((v, duration_places(s))),
        None => None,
    }
}

/// A duration of `scaled / 10^places` seconds.
#[derive(Debug, Clone, Copy, PartialEq, Eq, Structural)]
pub struct Seconds {
    pub scaled: u64,
    pub places: u32,
}

/// The most decimal places in which a duration can be stated with a 64-bit scale.
pub const MAX_PLACES: u32 = 19;

#[via_fn]
proof fn total_from_decreases(s: Seq<char>, i: int, k: nat) {
    if 0 <= i < s.len() && !is_space(s[i]) {
        lemma_token_len_bound(s, i + 1);
    }
}

#[via_fn]
proof fn places_from_decreases(s: Seq<char>, i: int) {
    if 0 <= i < s.len() && !is_space(s[i]) {
        lemma_token_len_bound(s, i + 1);
    }
}

proof fn lemma_pow10_le(i: nat, j: nat)
    requires
        i <= j,
    ensures
        1 <= pow10(i) <= pow10(j),
    decreases j,
{
    if j > i {
        lemma_pow10_le(i, (j - 1) as nat);
    } else if i > 0 {
        lemma_pow10_le((i - 1) as nat, (i - 1) as nat);
    }
}

proof fn lemma_digits_prefix_le(t: Seq<char>, m: int)
    requires
        0 <= m <= t.len(),
    ensures
        digits_value(t.subrange(0, m)) <= digits_value(t),
    decreases t.len(),
{
    if m < t.len() {
        lemma_digits_prefix_le(t.drop_last(), m);
        assert(t.drop_last().subrange(0, m) =~= t.subrange(0, m));
    } else {
        assert(t.subrange(0, m) =~= t);
    }
}

proof fn lemma_token_len_bound(s: Seq<char>, i: int)
    requires
        0 <= i <= s.len(),
    ensures
        i + token_len(s, i) <= s.len(),
    decreases s.len() - i,
{
    if i < s.len() && !is_space(s[i]) {
        lemma_token_len_bound(s, i + 1);
    }
}

fn is_space_char(c: char) -> (r: bool)
    ensures
        r == is_space(c),
{
    let u = c as u32;
    u == 0x20 || (0x09 <= u && u <= 0x0d) || u == 0x85 || u == 0xa0 || u == 0x1680 || (0x2000
        <= u && u <= 0x200a) || u == 0x2028 || u == 0x2029 || u == 0x202f || u == 0x205f || u
        == 0x3000
}

fn unit_of(c: char) -> (r: Option<u64>)
    ensures
        match unit_seconds(c) {
            Some(v) => r == Some(v as u64),
            None => r is None,
        },
{
    if c == 'd' {
        Some(SECONDS_PER_DAY)
    } else if c == 'h' {
        Some(SECONDS_PER_HOUR)
    } else if c == 'm' {
        Some(SECONDS_PER_MINUTE)
    } else if c == 's' {
        Some(1)
    } else {
        None
    }
}

fn pow10_of(k: u32) -> (r: u64)
    requires
        k <= MAX_PLACES,
    ensures
        r as nat == pow10(k as nat),
{
    proof {
        reveal_with_fuel(pow10, 20);
        assert(pow10(19) == 10000000000000000000nat);
    }
    let mut r: u64 = 1;
    let mut i: u32 = 0;
    while i < k
        invariant
            i <= k <= 19,
            r as nat == pow10(i as nat),
            pow10(19) == 10000000000000000000nat,
        decreases k - i,
    {
        proof {
            lemma_pow10_le((i + 1) as nat, 19);
        }
        r = r * 10;
        i = i + 1;
    }
    r
}

/// End of the token that starts at `i`: the next space or the end of `s`.
fn token_end(s: &str, i: usize, n: usize) -> (j: usize)
    requires
        n == s@.len(),
        i < n,
    ensures
        j == i + 1 + token_len(s@, i + 1),
        i < j <= n,
{
    let mut j: usize = i + 1;
    while j < n && !is_space_char(s.get_char(j))
        invariant
            n == s@.len(),
            i < j <= n,
            i + 1 + token_len(s@, i + 1) == j + token_len(s@, j as int),
        decreases n - j,
    {
        j = j + 1;
    }
    assert(token_len(s@, j as int) == 0);
    j
}

/// Position of the first `'.'` in `s[start..end]`, or `end`.
fn first_dot_in(s: &str, start: usize, end: usize) -> (r: usize)
    requires
        start <= end <= s@.len(),
    ensures
        start <= r <= end,
        r == start + first_dot(s@.subrange(start as int, end as int)),
{
    let ghost n = s@.subrange(start as int, end as int);
    let mut k: usize = start;
    while k < end
        invariant
            start <= k <= end <= s@.len(),
            n == s@.subrange(start as int, end as int),
            first_dot(n) == first_dot_from(n, k - start),
        decreases end - k,
    {
        let c = s.get_char(k);
        assert(n[k - start] == c);
        if c == '.' {
            return k;
        }
        k = k + 1;
    }
    k
}

/// The number that the digits `s[a..b]` denote; `Err` when one is not a digit
/// or the number does not fit in 64 bits.
fn digits_in(s: &str, a: usize, b: usize) -> (r: Result<u64, FormatError>)
    requires
        a <= b <= s@.len(),
    ensures
        match r {
            Ok(v) => all_digits(s@.subrange(a as int, b as int)) && v as nat == digits_value(
                s@.subrange(a as int, b as int),
            ),
            Err(_) => !all_digits(s@.subrange(a as int, b as int)) || digits_value(
                s@.subrange(a as int, b as int),
            ) > u64::MAX,
        },
{
    let ghost digits = s@.subrange(a as int, b as int);
    let mut value: u64 = 0;
    let mut k: usize = a;
    while k < b
        invariant
            a <= k <= b <= s@.len(),
            digits == s@.subrange(a as int, b as int),
            all_digits(digits.subrange(0, k - a)),
            value as nat == digits_value(digits.subrange(0, k - a)),
        decreases b - k,
    {
        let c = s.get_char(k);
        assert(digits[k - a] == c);
        if !(0x30 <= (c as u32) && (c as u32) <= 0x39) {
            return Err(FormatError);
        }
        let d = (c as u32 - 0x30) as u64;
        let ghost next = digits.subrange(0, k + 1 - a);
        assert(next.drop_last() =~= digits.subrange(0, k - a));
        assert(next.last() == c);
        if value > (u64::MAX - d) / 10 {
            proof {
                assert(digits_value(next) > u64::MAX) by (nonlinear_arith)
                    requires
                        digits_value(next) == value * 10 + d,
                        value > (u64::MAX - d) / 10,
                        d <= 9,
                ;
                lemma_digits_prefix_le(digits, k + 1 - a);
            }
            return Err(FormatError);
        }
        assert(value * 10 + d <= u64::MAX) by (nonlinear_arith)
            requires
                value <= (u64::MAX - d) / 10,
                d <= 9,
        ;
        value = value * 10 + d;
        k = k + 1;
        assert(all_digits(digits.subrange(0, k - a)));
    }
    assert(digits.subrange(0, k - a) =~= digits);
    Ok(value)
}

/// Seconds of the single token `s[start..end]`, times `10^k`; `Err` when it is
/// malformed or the result does not fit in 64 bits.
fn token_value(s: &str, start: usize, end: usize, k: u32) -> (r: Result<u64, FormatError>)
    requires
        start < end <= s@.len(),
        k <= MAX_PLACES,
    ensures
        match r {
            Ok(v) => token_scaled(s@.subrange(start as int, end as int), k as nat) == Some(
                v as nat,
            ),
            Err(_) => token_scaled(s@.subrange(start as int, end as int), k as nat) is None
                || token_scaled(s@.subrange(start as int, end as int), k as nat).unwrap()
                > u64::MAX,
        },
{
    let ghost t = s@.subrange(start as int, end as int);
    let ghost n = t.drop_last();
    let last = s.get_char(end - 1);
    assert(t.last() == last);
    assert(n =~= s@.subrange(start as int, end - 1));
    let unit = match unit_of(last) {
        Some(u) => u,
        None => {
            return Err(FormatError);
        },
    };
    assert(unit >= 1);
    let d = first_dot_in(s, start, end - 1);
    assert(integer_part(n) =~= s@.subrange(start as int, d as int));
    if d == start {
        return Err(FormatError);
    }
    let whole = match digits_in(s, start, d) {
        Ok(v) => v,
        Err(e) => {
            proof {
                if scaled_number(n, k as nat) is Some {
                    lemma_pow10_le(0, k as nat);
                    let a = digits_value(integer_part(n));
                    let b = digits_value(fraction_part(n));
                    let p = pow10(k as nat);
                    let q = pow10((k - decimal_places(n)) as nat);
                    assert((a * p + b * q) * unit >= a) by (nonlinear_arith)
                        requires
                            p >= 1,
                            unit >= 1,
                    ;
                }
            }
            return Err(e);
        },
    };
    let mut frac: u64 = 0;
    let mut places: usize = 0;
    if d < end - 1 {
        assert(fraction_part(n) =~= s@.subrange(d + 1, end - 1));
        if d + 1 == end - 1 {
            return Err(FormatError);
        }
        frac = match digits_in(s, d + 1, end - 1) {
            Ok(v) => v,
            Err(e) => {
                proof {
                    if scaled_number(n, k as nat) is Some {
                        lemma_pow10_le(0, (k - decimal_places(n)) as nat);
                        let a = digits_value(integer_part(n));
                        let b = digits_value(fraction_part(n));
                        let p = pow10(k as nat);
                        let q = pow10((k - decimal_places(n)) as nat);
                        assert((a * p + b * q) * unit >= b) by (nonlinear_arith)
                            requires
                                q >= 1,
                                unit >= 1,
                        ;
                    }
                }
                return Err(e);
            },
        };
        places = end - 1 - d - 1;
    } else {
        assert(fraction_part(n) =~= Seq::<char>::empty());
        assert(digits_value(fraction_part(n)) == 0);
    }
    assert(decimal_places(n) == places);
    if places > k as usize {
        return Err(FormatError);
    }
    let p = pow10_of(k);
    let q = pow10_of(k - places as u32);
    let ghost value = (whole * p + frac * q) * unit;
    assert(scaled_number(n, k as nat) == Some((whole * p + frac * q) as nat));
    assert(token_scaled(t, k as nat) == Some(value as nat));
    assert(whole * p <= u64::MAX * u64::MAX) by (nonlinear_arith)
        requires
            whole <= u64::MAX,
            p <= u64::MAX,
    ;
    assert(frac * q <= u64::MAX * u64::MAX) by (nonlinear_arith)
        requires
            frac <= u64::MAX,
            q <= u64::MAX,
    ;
    let x: u128 = whole as u128 * p as u128;
    let y: u128 = frac as u128 * q as u128;
    if x > u64::MAX as u128 || y > u64::MAX as u128 {
        assert(value > u64::MAX) by (nonlinear_arith)
            requires
                value == (whole * p + frac * q) * unit,
                whole * p > u64::MAX || frac * q > u64::MAX,
                unit >= 1,
        ;
        return Err(FormatError);
    }
    assert(unit <= 86400);
    assert((x + y) * (unit as u128) <= 2 * (u64::MAX as u128) * 86400) by (nonlinear_arith)
        requires
            x <= u64::MAX,
            y <= u64::MAX,
            unit <= 86400,
    ;
    let total: u128 = (x + y) * unit as u128;
    if total > u64::MAX as u128 {
        return Err(FormatError);
    }
    Ok(total as u64)
}

/// The most decimal places any token of `s` is written with.
fn places_of(s: &str) -> (r: usize)
    ensures
        r as nat == duration_places(s@),
{
    let n = s.unicode_len();
    let mut most: usize = 0;
    let mut i: usize = 0;
    while i < n
        invariant
            n == s@.len(),
            i <= n,
            most <= n,
            duration_places(s@) == if most > places_from(s@, i as int) {
                most as nat
            } else {
                places_from(s@, i as int)
            },
        decreases n - i,
    {
        if is_space_char(s.get_char(i)) {
            i = i + 1;
        } else {
            let j = token_end(s, i, n);
            let d = first_dot_in(s, i, j - 1);
            let ghost num = s@.subrange(i as int, j - 1);
            let p: usize = if d < j - 1 {
                j - 1 - d - 1
            } else {
                0
            };
            assert(decimal_places(num) == p);
            if p > most {
                most = p;
            }
            i = j;
        }
    }
    most
}

/// The total of the tokens of `s`, times `10^k`.
fn scaled_total(s: &str, k: u32) -> (r: Result<u64, FormatError>)
    requires
        k <= MAX_PLACES,
    ensures
        match r {
            Ok(v) => total_from(s@, 0, k as nat) == Some(v as nat),
            Err(_) => total_from(s@, 0, k as nat) is None || total_from(s@, 0, k as nat).unwrap()
                > u64::MAX,
        },
{
    let n = s.unicode_len();
    let mut total: u64 = 0;
    let mut i: usize = 0;
    while i < n
        invariant
            n == s@.len(),
            i <= n,
            k <= MAX_PLACES,
            total_from(s@, 0, k as nat) == add_opt(total as nat, total_from(s@, i as int, k as nat)),
        decreases n - i,
    {
        if is_space_char(s.get_char(i)) {
            i = i + 1;
        } else {
            let j = token_end(s, i, n);
            match token_value(s, i, j, k) {
                Ok(v) => {
                    if v > u64::MAX - total {
                        return Err(FormatError);
                    }
                    total = total + v;
                    i = j;
                },
                Err(e) => {
                    return Err(e);
                },
            }
        }
    }
    Ok(total)
}

/// Parses a whitespace-separated list of tokens such as `"1d 2h 3m 4.5s"` into
/// its exact total. Each token is a non-negative decimal number (digits,
/// optionally a point and more digits) followed by one of the suffixes `d`,
/// `h`, `m`, `s`; an empty string is zero seconds. The total is stated in as
/// many decimal places as its most precise token.
pub fn parse_duration(s: &str) -> (r: Result<Seconds, FormatError>)
    ensures
        match r {
            Ok(d) => duration_seconds(s@) == Some((d.scaled as nat, d.places as nat)),
            Err(_) => duration_seconds(s@) is None || duration_places(s@) > MAX_PLACES
                || duration_seconds(s@).unwrap().0 > u64::MAX,
        },
{
    let places = places_of(s);
    if places > MAX_PLACES as usize {
        return Err(FormatError);
    }
    match scaled_total(s, places as u32) {
        Ok(v) => Ok(Seconds { scaled: v, places: places as u32 }),
        Err(e) => Err(e),
    }
}

} // verus!
