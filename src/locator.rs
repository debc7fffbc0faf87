use vstd::prelude::*;
use vstd::arithmetic::div_mod::{lemma_div_is_ordered, lemma_div_multiples_vanish};

verus! {

/// Ten to the power `n`.
pub open spec fn pow10(n: nat) -> int
    decreases n,
{
    if n == 0 {
        1
    } else {
        10 * pow10((n - 1) as nat)
    }
}

/// The largest number of decimal digits a coordinate may carry.
pub const MAX_DIGITS: u32 = 18;

proof fn lemma_pow10_bounds(a: nat, b: nat)
    requires
        a <= b,
    ensures
        1 <= pow10(a) <= pow10(b),
    decreases b,
{
    if b > 0 {
        if a < b {
            lemma_pow10_bounds(a, (b - 1) as nat);
        } else {
            lemma_pow10_bounds((a - 1) as nat, (b - 1) as nat);
        }
    }
}

proof fn lemma_pow10_18()
    ensures
        pow10(18) == 1_000_000_000_000_000_000,
{
    reveal_with_fuel(pow10, 19);
}

/// An angle in degrees, held exactly as `units / 10^scale`.
#[derive(Clone, Copy, Debug, PartialEq, Eq)]
pub struct Coordinate {
    pub units: i64,
    pub scale: u32,
}

impl Coordinate {
    /// The scale is at most 18 and the units have at most 18 digits.
    pub open spec fn wf(&self) -> bool {
        &&& self.scale <= MAX_DIGITS
        &&& -1_000_000_000_000_000_000 < self.units < 1_000_000_000_000_000_000
    }

    /// The denominator `10^scale`.
    pub open spec fn denom(&self) -> int {
        pow10(self.scale as nat)
    }

    /// The angle lies in `[-limit, limit]` degrees.
    pub open spec fn within(&self, limit: int) -> bool {
        -(limit * self.denom()) <= self.units <= limit * self.denom()
    }

    /// A latitude: between -90 and 90 degrees.
    pub open spec fn is_latitude(&self) -> bool {
        self.within(90)
    }

    /// A longitude: between -180 and 180 degrees.
    pub open spec fn is_longitude(&self) -> bool {
        self.within(180)
    }

    /// Whether the angle lies in `[-limit, limit]` degrees.
    pub fn within_exec(&self, limit: u64) -> (r: bool)
        requires
            self.wf(),
            limit <= 180,
        ensures
            r == self.within(limit as int),
    {
        let p = pow10_exec(self.scale);
        proof {
            lemma_pow10_bounds(self.scale as nat, 18);
            lemma_pow10_18();
            assert(limit * p <= 180 * 1_000_000_000_000_000_000) by (nonlinear_arith)
                requires
                    limit <= 180,
                    p <= 1_000_000_000_000_000_000,
            ;
        }
        let bound: i128 = (limit as u128 * p) as i128;
        -bound <= self.units as i128 && self.units as i128 <= bound
    }

    /// Whether this is a latitude: between -90 and 90 degrees.
    pub fn is_latitude_exec(&self) -> (r: bool)
        requires
            self.wf(),
        ensures
            r == self.is_latitude(),
    {
        self.within_exec(90)
    }

    /// Whether this is a longitude: between -180 and 180 degrees.
    pub fn is_longitude_exec(&self) -> (r: bool)
        requires
            self.wf(),
        ensures
            r == self.is_longitude(),
    {
        self.within_exec(180)
    }

    /// `floor((value + offset) * per_degree)`: the index of the cell, counted
    /// from the south-west corner, in cells of `1 / per_degree` degrees.
    pub open spec fn cell(&self, offset: int, per_degree: int) -> int {
        ((self.units + offset * self.denom()) * per_degree) / self.denom()
    }
}

/// Index of a longitude in 5-minute cells (12 per degree) east of -180.
pub open spec fn lon_cell(lon: Coordinate) -> int {
    lon.cell(180, 12)
}

/// Index of a latitude in 2.5-minute cells (24 per degree) north of -90.
pub open spec fn lat_cell(lat: Coordinate) -> int {
    lat.cell(90, 24)
}

/// The letter of the field, 240 subsquares wide: 'A' onwards.
pub open spec fn field_char(cell: int) -> char {
    (65 + cell / 240) as char
}

/// The digit of the square, 24 subsquares wide: '0' onwards.
pub open spec fn square_char(cell: int) -> char {
    (48 + (cell % 240) / 24) as char
}

/// The letter of the subsquare: 'a' onwards.
pub open spec fn subsquare_char(cell: int) -> char {
    (97 + cell % 24) as char
}

/// The six-character Maidenhead locator of a position: field, square and
/// subsquare, each longitude first. Fields are 20 by 10 degrees, squares
/// 2 by 1 degrees and subsquares 5 by 2.5 minutes; every bucket is a floor.
pub open spec fn locator(lat: Coordinate, lon: Coordinate) -> Seq<char> {
    seq![
        field_char(lon_cell(lon)),
        field_char(lat_cell(lat)),
        square_char(lon_cell(lon)),
        square_char(lat_cell(lat)),
        subsquare_char(lon_cell(lon)),
        subsquare_char(lat_cell(lat)),
    ]
}

/// Relies on String::push: appends one character.
#[verifier::external_body]
fn push_char(s: &mut String, c: char)
    ensures
        final(s)@ == old(s)@.push(c),
{
    s.push(c);
}

/// `10^n` for `n <= 18`.
fn pow10_exec(n: u32) -> (r: u128)
    requires
        n <= MAX_DIGITS,
    ensures
        r == pow10(n as nat),
{
    let mut r: u128 = 1;
    let mut i: u32 = 0;
    while i < n
        invariant
            i <= n <= MAX_DIGITS,
            r == pow10(i as nat),
        decreases n - i,
    {
        proof {
            lemma_pow10_bounds((i + 1) as nat, 18);
            lemma_pow10_18();
        }
        r = r * 10;
        i = i + 1;
    }
    r
}

/// The cell index of `c`, shifted by `offset` degrees, in cells of
/// `1 / per_degree` degrees.
fn cell_exec(c: Coordinate, offset: u128, per_degree: u128) -> (r: u32)
    requires
        c.wf(),
        c.within(offset as int),
        1 <= offset <= 180,
        1 <= per_degree <= 24,
    ensures
        r == c.cell(offset as int, per_degree as int),
        0 <= r <= 2 * offset * per_degree,
{
    let p = pow10_exec(c.scale);
    proof {
        lemma_pow10_bounds(c.scale as nat, 18);
        lemma_pow10_18();
        assert(offset * p <= 180 * 1_000_000_000_000_000_000) by (nonlinear_arith)
            requires
                offset <= 180,
                p <= 1_000_000_000_000_000_000,
        ;
        assert(p as int == c.denom());
        assert(-((offset as int) * (p as int)) <= c.units <= (offset as int) * (p as int));
    }
    let op: u128 = offset * p;
    let shifted_i: i128 = c.units as i128 + op as i128;
    assert(0 <= shifted_i <= 2 * (offset * p));
    let shifted: u128 = shifted_i as u128;
    proof {
        assert(shifted * per_degree <= 2 * 180 * 24 * 1_000_000_000_000_000_000) by (nonlinear_arith)
            requires
                shifted <= 2 * (offset * p),
                offset <= 180,
                per_degree <= 24,
                p <= 1_000_000_000_000_000_000,
        ;
    }
    let n: u128 = shifted * per_degree;
    let r: u128 = n / p;
    proof {
        let d = p as int;
        let k = 2 * offset * per_degree;
        assert(0 <= n <= k * d) by (nonlinear_arith)
            requires
                n == shifted * per_degree,
                0 <= shifted <= 2 * (offset * d),
                1 <= per_degree,
                k == 2 * offset * per_degree,
        ;
        lemma_div_is_ordered(n as int, k * d, d);
        assert(k * d == d * k) by (nonlinear_arith);
        lemma_div_multiples_vanish(k as int, d);
        assert(n as int == (c.units + (offset as int) * c.denom()) * (per_degree as int));
        assert(r as int == (n as int) / d);
        assert(k <= 8640) by (nonlinear_arith)
            requires
                k == 2 * offset * per_degree,
                offset <= 180,
                per_degree <= 24,
        ;
        assert(r <= k);
    }
    r as u32
}

/// Converts a latitude and a longitude to a six-character Maidenhead
/// locator, bucketing each step by its floor.
pub fn lat_long_to_maidenhead(lat: Coordinate, lon: Coordinate) -> (r: String)
    requires
        lat.wf(),
        lon.wf(),
        lat.is_latitude(),
        lon.is_longitude(),
    ensures
        r@ == locator(lat, lon),
{
    let lon_c = cell_exec(lon, 180, 12);
    let lat_c = cell_exec(lat, 90, 24);
    let mut r = String::new();
    push_char(&mut r, (65u8 + (lon_c / 240) as u8) as char);
    push_char(&mut r, (65u8 + (lat_c / 240) as u8) as char);
    push_char(&mut r, (48u8 + ((lon_c % 240) / 24) as u8) as char);
    push_char(&mut r, (48u8 + ((lat_c % 240) / 24) as u8) as char);
    push_char(&mut r, (97u8 + (lon_c % 24) as u8) as char);
    push_char(&mut r, (97u8 + (lat_c % 24) as u8) as char);
    assert(r@ =~= locator(lat, lon));
    r
}


/// A decimal digit, '0' to '9'.
pub open spec fn is_digit(c: char) -> bool {
    '0' <= c <= '9'
}

/// Every character of `s` is a decimal digit.
pub open spec fn all_digits(s: Seq<char>) -> bool {
    forall|i: int| 0 <= i < s.len() ==> is_digit(#[trigger] s[i])
}

/// The number that a run of decimal digits spells.
pub open spec fn digits_value(s: Seq<char>) -> int
    decreases s.len(),
{
    if s.len() == 0 {
        0
    } else {
        10 * digits_value(s.drop_last()) + (s.last() as int - '0' as int)
    }
}

/// The position of the first `c` in `s`, or the length of `s` if there is none.
pub open spec fn first_index(s: Seq<char>, c: char) -> int
    decreases s.len(),
{
    if s.len() == 0 {
        0
    } else if s[0] == c {
        0
    } else {
        1 + first_index(s.drop_first(), c)
    }
}

/// The length of a leading '+' or '-'.
pub open spec fn sign_len(s: Seq<char>) -> int {
    if s.len() > 0 && (s[0] == '-' || s[0] == '+') {
        1
    } else {
        0
    }
}

/// The digits before the decimal point of an unsigned decimal.
pub open spec fn int_part(b: Seq<char>) -> Seq<char> {
    b.take(first_index(b, '.'))
}

/// The digits after the decimal point of an unsigned decimal.
pub open spec fn frac_part(b: Seq<char>) -> Seq<char> {
    if first_index(b, '.') < b.len() {
        b.skip(first_index(b, '.') + 1)
    } else {
        Seq::empty()
    }
}

/// A coordinate written as an optional sign, digits, and an optional
/// decimal point followed by digits, with between 1 and 18 digits in all.
/// Any other text is no coordinate.
pub open spec fn coordinate_of(s: Seq<char>) -> Option<Coordinate> {
    let b = s.skip(sign_len(s));
    let ip = int_part(b);
    let fp = frac_part(b);
    if all_digits(ip) && all_digits(fp) && 1 <= ip.len() + fp.len() <= 18 {
        let mag = digits_value(ip + fp);
        Some(
            Coordinate {
                units: (if s[0] == '-' {
                    -mag
                } else {
                    mag
                }) as i64,
                scale: fp.len() as u32,
            },
        )
    } else {
        None
    }
}

proof fn lemma_digits_value_bound(s: Seq<char>)
    requires
        all_digits(s),
    ensures
        0 <= digits_value(s) < pow10(s.len()),
    decreases s.len(),
{
    if s.len() > 0 {
        let t = s.drop_last();
        assert(all_digits(t)) by {
            assert forall|i: int| 0 <= i < t.len() implies is_digit(#[trigger] t[i]) by {
                assert(t[i] == s[i]);
            }
        }
        lemma_digits_value_bound(t);
        assert(is_digit(s[s.len() - 1]));
    }
}

proof fn lemma_digits_value_concat(a: Seq<char>, b: Seq<char>)
    ensures
        digits_value(a + b) == digits_value(a) * pow10(b.len()) + digits_value(b),
    decreases b.len(),
{
    if b.len() == 0 {
        assert(a + b =~= a);
    } else {
        let bl = b.drop_last();
        assert((a + b).drop_last() =~= a + bl);
        assert((a + b).last() == b.last());
        lemma_digits_value_concat(a, bl);
        assert(digits_value(a) * pow10(b.len()) == 10 * (digits_value(a) * pow10(bl.len())))
            by (nonlinear_arith)
            requires
                pow10(b.len()) == 10 * pow10(bl.len()),
        ;
    }
}

proof fn lemma_first_index(s: Seq<char>, c: char, k: int)
    requires
        0 <= k <= s.len(),
        forall|j: int| 0 <= j < k ==> s[j] != c,
        k < s.len() ==> s[k] == c,
    ensures
        first_index(s, c) == k,
    decreases s.len(),
{
    if s.len() > 0 && k > 0 {
        lemma_first_index(s.drop_first(), c, k - 1);
    }
}

/// Appends the digits `s[from..to]` to `acc`, or `None` if one is no digit.
fn accumulate_digits(s: &str, from: usize, to: usize, acc: u64, Ghost(k): Ghost<nat>) -> (r:
    Option<u64>)
    requires
        from <= to <= s@.len(),
        0 <= acc < pow10(k),
        k + (to - from) <= 18,
    ensures
        all_digits(s@.subrange(from as int, to as int)) <==> r is Some,
        r matches Some(v) ==> v == acc * pow10((to - from) as nat) + digits_value(
            s@.subrange(from as int, to as int),
        ) && v < pow10((k + (to - from)) as nat),
{
    let mut cur: u64 = acc;
    let mut i: usize = from;
    while i < to
        invariant
            from <= i <= to <= s@.len(),
            k + (to - from) <= 18,
            all_digits(s@.subrange(from as int, i as int)),
            cur == acc * pow10((i - from) as nat) + digits_value(s@.subrange(from as int, i as int)),
            cur < pow10((k + (i - from)) as nat),
        decreases to - i,
    {
        let c = s.get_char(i);
        let ghost prev = s@.subrange(from as int, i as int);
        let ghost next = s@.subrange(from as int, i + 1);
        if !('0' <= c && c <= '9') {
            proof {
                assert(next[i - from] == c);
                assert(!all_digits(s@.subrange(from as int, to as int))) by {
                    assert(s@.subrange(from as int, to as int)[i - from] == c);
                }
            }
            return None;
        }
        proof {
            assert(next.drop_last() =~= prev);
            assert(next.last() == c);
            assert(all_digits(next)) by {
                assert forall|j: int| 0 <= j < next.len() implies is_digit(#[trigger] next[j]) by {
                    if j < prev.len() {
                        assert(next[j] == prev[j]);
                    }
                }
            }
            lemma_pow10_bounds((k + (i + 1 - from)) as nat, 18);
            lemma_pow10_18();
            assert(cur * 10 + 9 < pow10((k + (i + 1 - from)) as nat)) by (nonlinear_arith)
                requires
                    cur < pow10((k + (i - from)) as nat),
                    pow10((k + (i + 1 - from)) as nat) == 10 * pow10((k + (i - from)) as nat),
            ;
            assert(acc * pow10((i + 1 - from) as nat) == 10 * (acc * pow10((i - from) as nat)))
                by (nonlinear_arith)
                requires
                    pow10((i + 1 - from) as nat) == 10 * pow10((i - from) as nat),
            ;
        }
        cur = cur * 10 + (c as u32 - '0' as u32) as u64;
        i = i + 1;
    }
    Some(cur)
}

/// Reads a coordinate in decimal notation.
#[verifier::rlimit(40)]
pub fn parse_coordinate(s: &str) -> (r: Option<Coordinate>)
    ensures
        r == coordinate_of(s@),
        r matches Some(c) ==> c.wf(),
{
    let n = s.unicode_len();
    let mut start: usize = 0;
    let mut negative = false;
    if n > 0 {
        let c0 = s.get_char(0);
        if c0 == '-' || c0 == '+' {
            start = 1;
            negative = c0 == '-';
        }
    }
    let ghost b = s@.skip(sign_len(s@));
    assert(b =~= s@.subrange(start as int, n as int));
    let mut dot: usize = start;
    while dot < n && s.get_char(dot) != '.'
        invariant
            start <= dot <= n == s@.len(),
            forall|j: int| start <= j < dot ==> s@[j] != '.',
        decreases n - dot,
    {
        dot = dot + 1;
    }
    proof {
        lemma_first_index(b, '.', dot - start);
    }
    let frac_from: usize = if dot < n { dot + 1 } else { n };
    let n_digits: usize = (dot - start) + (n - frac_from);
    let ghost ip = int_part(b);
    let ghost fp = frac_part(b);
    assert(ip =~= s@.subrange(start as int, dot as int));
    assert(fp =~= s@.subrange(frac_from as int, n as int));
    if n_digits < 1 || n_digits > 18 {
        return None;
    }
    let whole = accumulate_digits(s, start, dot, 0, Ghost(0));
    match whole {
        None => {
            assert(!all_digits(ip));
            None
        },
        Some(w) => {
            proof {
                lemma_digits_value_bound(ip);
            }
            let all = accumulate_digits(s, frac_from, n, w, Ghost(ip.len()));
            match all {
                None => {
                    assert(!all_digits(fp));
                    None
                },
                Some(m) => {
                    proof {
                        lemma_digits_value_concat(ip, fp);
                        lemma_pow10_bounds((ip.len() + fp.len()) as nat, 18);
                        lemma_pow10_18();
                        assert(m == digits_value(ip + fp));
                        assert(m < pow10(18));
                        assert(negative == (s@[0] == '-'));
                    }
                    let units: i64 = if negative {
                        -(m as i64)
                    } else {
                        m as i64
                    };
                    Some(Coordinate { units, scale: (n - frac_from) as u32 })
                },
            }
        },
    }
}

/// A character with Unicode's White_Space property.
pub open spec fn is_white_space(c: char) -> bool {
    ||| '\u{9}' <= c <= '\u{d}'
    ||| c == ' '
    ||| c == '\u{85}'
    ||| c == '\u{a0}'
    ||| c == '\u{1680}'
    ||| '\u{2000}' <= c <= '\u{200a}'
    ||| c == '\u{2028}'
    ||| c == '\u{2029}'
    ||| c == '\u{202f}'
    ||| c == '\u{205f}'
    ||| c == '\u{3000}'
}

/// `s` without its leading white space.
pub open spec fn trim_start(s: Seq<char>) -> Seq<char>
    decreases s.len(),
{
    if s.len() > 0 && is_white_space(s[0]) {
        trim_start(s.drop_first())
    } else {
        s
    }
}

/// `s` without its trailing white space.
pub open spec fn trim_end(s: Seq<char>) -> Seq<char>
    decreases s.len(),
{
    if s.len() > 0 && is_white_space(s.last()) {
        trim_end(s.drop_last())
    } else {
        s
    }
}

/// `s` without leading or trailing white space.
pub open spec fn trimmed(s: Seq<char>) -> Seq<char> {
    trim_end(trim_start(s))
}

/// Relies on str::trim: removes leading and trailing characters that have
/// the White_Space property.
#[verifier::external_body]
fn trim<'a>(s: &'a str) -> (r: &'a str)
    ensures
        r@ == trimmed(s@),
{
    s.trim()
}

/// The position that a line `<lat>,<lon>` gives, if both halves are
/// coordinates and in range.
pub open spec fn position_of(t: Seq<char>) -> Option<(Coordinate, Coordinate)> {
    let k = first_index(t, ',');
    if k < t.len() {
        match (coordinate_of(trimmed(t.take(k))), coordinate_of(trimmed(t.skip(k + 1)))) {
            (Some(lat), Some(lon)) => if lat.is_latitude() && lon.is_longitude() {
                Some((lat, lon))
            } else {
                None
            },
            _ => None,
        }
    } else {
        None
    }
}

/// What the system-info helper's output is shown as: the locator of the
/// position it prints, or else the output itself, trimmed.
pub open spec fn grid_reply(output: Seq<char>) -> Seq<char> {
    let t = trimmed(output);
    match position_of(t) {
        Some((lat, lon)) => locator(lat, lon),
        None => t,
    }
}

/// Turns the system-info helper's output into a grid locator; output that is
/// no position in range (a diagnostic such as "GPS not fixed") comes back
/// trimmed and otherwise unchanged.
pub fn gridsquare_from_output(output: &str) -> (r: String)
    ensures
        r@ == grid_reply(output@),
{
    let t = trim(output);
    let n = t.unicode_len();
    let mut k: usize = 0;
    while k < n && t.get_char(k) != ','
        invariant
            k <= n == t@.len(),
            forall|j: int| 0 <= j < k ==> t@[j] != ',',
        decreases n - k,
    {
        k = k + 1;
    }
    proof {
        lemma_first_index(t@, ',', k as int);
    }
    if k < n {
        let lat_text = trim(t.substring_char(0, k));
        let lon_text = trim(t.substring_char(k + 1, n));
        assert(t@.subrange(0, k as int) =~= t@.take(k as int));
        assert(t@.subrange(k + 1, n as int) =~= t@.skip(k + 1));
        let lat = parse_coordinate(lat_text);
        let lon = parse_coordinate(lon_text);
        if let (Some(la), Some(lo)) = (lat, lon) {
            if la.is_latitude_exec() && lo.is_longitude_exec() {
                return lat_long_to_maidenhead(la, lo);
            }
        }
    }
    String::from_str(t)
}

proof fn lemma_exact_cell(x: Coordinate, offset: int, per_degree: int, i: int)
    requires
        (x.units + offset * x.denom()) * per_degree == i * x.denom(),
    ensures
        x.cell(offset, per_degree) == i,
{
    lemma_pow10_bounds(x.scale as nat, x.scale as nat);
    lemma_div_multiples_vanish(i, x.denom());
    assert(i * x.denom() == x.denom() * i) by (nonlinear_arith);
}

/// A position exactly on the south-west corner of a subsquare gets that
/// subsquare's field letters, square digits and subsquare letters: bucketing
/// is by floor, so a corner never falls into a neighbouring cell.
pub proof fn lemma_locator_at_corner(
    lat: Coordinate,
    lon: Coordinate,
    lat_field: int,
    lat_square: int,
    lat_sub: int,
    lon_field: int,
    lon_square: int,
    lon_sub: int,
)
    requires
        0 <= lat_field < 18,
        0 <= lon_field < 18,
        0 <= lat_square < 10,
        0 <= lon_square < 10,
        0 <= lat_sub < 24,
        0 <= lon_sub < 24,
        // lat == -90 + 10 * lat_field + lat_square + lat_sub / 24
        lat.units * 24 == (240 * lat_field + 24 * lat_square + lat_sub - 2160) * lat.denom(),
        // lon == -180 + 20 * lon_field + 2 * lon_square + lon_sub / 12
        lon.units * 12 == (240 * lon_field + 24 * lon_square + lon_sub - 2160) * lon.denom(),
    ensures
        locator(lat, lon) == seq![
            (65 + lon_field) as char,
            (65 + lat_field) as char,
            (48 + lon_square) as char,
            (48 + lat_square) as char,
            (97 + lon_sub) as char,
            (97 + lat_sub) as char,
        ],
{
    let i_lat = 240 * lat_field + 24 * lat_square + lat_sub;
    let i_lon = 240 * lon_field + 24 * lon_square + lon_sub;
    assert((lat.units + 90 * lat.denom()) * 24 == i_lat * lat.denom()) by (nonlinear_arith)
        requires
            lat.units * 24 == (i_lat - 2160) * lat.denom(),
    ;
    assert((lon.units + 180 * lon.denom()) * 12 == i_lon * lon.denom()) by (nonlinear_arith)
        requires
            lon.units * 12 == (i_lon - 2160) * lon.denom(),
    ;
    lemma_exact_cell(lat, 90, 24, i_lat);
    lemma_exact_cell(lon, 180, 12, i_lon);
    assert(locator(lat, lon) =~= seq![
        (65 + lon_field) as char,
        (65 + lat_field) as char,
        (48 + lon_square) as char,
        (48 + lat_square) as char,
        (97 + lon_sub) as char,
        (97 + lat_sub) as char,
    ]);
}

proof fn lemma_floor_of_equal_fractions(x1: int, d1: int, x2: int, d2: int)
    requires
        0 < d1,
        0 < d2,
        x1 * d2 == x2 * d1,
    ensures
        x1 / d1 == x2 / d2,
{
    let q = x1 / d1;
    let r = x1 % d1;
    vstd::arithmetic::div_mod::lemma_fundamental_div_mod(x1, d1);
    assert(0 <= r < d1);
    assert((x2 - q * d2) * d1 == r * d2) by (nonlinear_arith)
        requires
            x1 * d2 == x2 * d1,
            x1 == d1 * q + r,
    ;
    assert(0 <= x2 - q * d2 < d2) by (nonlinear_arith)
        requires
            (x2 - q * d2) * d1 == r * d2,
            0 <= r < d1,
            0 < d1,
            0 < d2,
    ;
    vstd::arithmetic::div_mod::lemma_fundamental_div_mod_converse(x2, d2, q, x2 - q * d2);
}

proof fn lemma_cell_by_value(a: Coordinate, b: Coordinate, offset: int, per_degree: int)
    requires
        a.units * b.denom() == b.units * a.denom(),
    ensures
        a.cell(offset, per_degree) == b.cell(offset, per_degree),
{
    lemma_pow10_bounds(a.scale as nat, a.scale as nat);
    lemma_pow10_bounds(b.scale as nat, b.scale as nat);
    let da = a.denom();
    let db = b.denom();
    assert(((a.units + offset * da) * per_degree) * db == ((b.units + offset * db) * per_degree)
        * da) by (nonlinear_arith)
        requires
            a.units * db == b.units * da,
    ;
    lemma_floor_of_equal_fractions(
        (a.units + offset * da) * per_degree,
        da,
        (b.units + offset * db) * per_degree,
        db,
    );
}

/// The locator depends on the position alone: two inputs that denote the
/// same latitude and the same longitude (say 45.5 and 45.50) give the same
/// locator, and so does the same input given twice.
pub proof fn lemma_locator_deterministic(
    lat1: Coordinate,
    lon1: Coordinate,
    lat2: Coordinate,
    lon2: Coordinate,
)
    requires
        lat1.units * lat2.denom() == lat2.units * lat1.denom(),
        lon1.units * lon2.denom() == lon2.units * lon1.denom(),
    ensures
        locator(lat1, lon1) == locator(lat2, lon2),
{
    lemma_cell_by_value(lat1, lat2, 90, 24);
    lemma_cell_by_value(lon1, lon2, 180, 12);
}

proof fn lemma_trim_keeps_absent(s: Seq<char>, c: char)
    requires
        forall|i: int| 0 <= i < s.len() ==> s[i] != c,
    ensures
        forall|i: int| 0 <= i < trim_start(s).len() ==> trim_start(s)[i] != c,
        forall|i: int| 0 <= i < trim_end(s).len() ==> trim_end(s)[i] != c,
    decreases s.len(),
{
    if s.len() > 0 {
        let f = s.drop_first();
        let l = s.drop_last();
        assert forall|i: int| 0 <= i < f.len() implies f[i] != c by {
            assert(f[i] == s[i + 1]);
        }
        assert forall|i: int| 0 <= i < l.len() implies l[i] != c by {
            assert(l[i] == s[i]);
        }
        lemma_trim_keeps_absent(f, c);
        lemma_trim_keeps_absent(l, c);
        if is_white_space(s[0]) {
            assert(trim_start(s) == trim_start(f));
        } else {
            assert(trim_start(s) == s);
        }
        if is_white_space(s.last()) {
            assert(trim_end(s) == trim_end(l));
        } else {
            assert(trim_end(s) == s);
        }
    }
}

/// Output in which no comma stands is no position: it is passed on as it
/// is, but for the white space around it.
pub proof fn lemma_reply_without_comma(output: Seq<char>)
    requires
        forall|i: int| 0 <= i < output.len() ==> output[i] != ',',
    ensures
        grid_reply(output) == trimmed(output),
{
    lemma_trim_keeps_absent(output, ',');
    lemma_trim_keeps_absent(trim_start(output), ',');
    let t = trimmed(output);
    lemma_first_index(t, ',', t.len() as int);
}

/// Output that holds a position in range is shown as the six-character
/// locator of that position.
pub proof fn lemma_reply_for_position(output: Seq<char>, lat: Coordinate, lon: Coordinate)
    requires
        position_of(trimmed(output)) == Some((lat, lon)),
    ensures
        grid_reply(output) == locator(lat, lon),
        grid_reply(output).len() == 6,
{
}

} // verus!
