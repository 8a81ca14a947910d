//! Integer-nanosecond timestamps and half-open time intervals.

use vstd::prelude::*;

verus! {

/// A point in time, in nanoseconds. Signed: some producers emit negative
/// times relative to their chosen origin.
#[derive(Debug, Copy, Clone, PartialEq, Eq, Structural, Hash)]
pub struct Timestamp(pub i64);

/// The half-open interval of time `[start, stop)`.
///
/// A well-formed interval (see [`Interval::wf`]) has `start <= stop`; the
/// intersection of two disjoint intervals is not well-formed, which callers
/// detect by its non-positive duration.
#[derive(Debug, Copy, Clone, PartialEq, Eq, Structural, Hash)]
pub struct Interval {
    pub start: Timestamp,
    pub stop: Timestamp,
}

impl Interval {
    /// The duration as a mathematical integer; negative when `stop < start`.
    pub open spec fn sduration(self) -> int {
        self.stop.0 - self.start.0
    }

    /// Well-formed: ordered endpoints and a duration that fits in `i64`.
    pub open spec fn wf(self) -> bool {
        self.start.0 <= self.stop.0 && self.sduration() <= i64::MAX
    }

    pub open spec fn spec_contains(self, t: Timestamp) -> bool {
        self.start.0 <= t.0 < self.stop.0
    }

    pub open spec fn spec_overlaps(self, other: Interval) -> bool {
        self.start.0 < other.stop.0 && other.start.0 < self.stop.0
    }

    pub open spec fn spec_contains_interval(self, other: Interval) -> bool {
        self.start.0 <= other.start.0 && other.stop.0 <= self.stop.0
    }

    pub open spec fn spec_intersection(self, other: Interval) -> Interval {
        Interval {
            start: Timestamp(if self.start.0 >= other.start.0 { self.start.0 } else { other.start.0 }),
            stop: Timestamp(if self.stop.0 <= other.stop.0 { self.stop.0 } else { other.stop.0 }),
        }
    }

    pub open spec fn spec_union(self, other: Interval) -> Interval {
        Interval {
            start: Timestamp(if self.start.0 <= other.start.0 { self.start.0 } else { other.start.0 }),
            stop: Timestamp(if self.stop.0 >= other.stop.0 { self.stop.0 } else { other.stop.0 }),
        }
    }

    pub fn new(start: Timestamp, stop: Timestamp) -> (r: Interval)
        ensures
            r.start == start,
            r.stop == stop,
    {
        Interval { start, stop }
    }

    /// The duration in nanoseconds.
    pub fn duration_ns(self) -> (r: i64)
        requires
            i64::MIN <= self.sduration() <= i64::MAX,
        ensures
            r == self.sduration(),
    {
        self.stop.0 - self.start.0
    }

    pub fn contains(self, t: Timestamp) -> (r: bool)
        ensures
            r == self.spec_contains(t),
    {
        self.start.0 <= t.0 && t.0 < self.stop.0
    }

    pub fn overlaps(self, other: Interval) -> (r: bool)
        ensures
            r == self.spec_overlaps(other),
    {
        self.start.0 < other.stop.0 && other.start.0 < self.stop.0
    }

    pub fn contains_interval(self, other: Interval) -> (r: bool)
        ensures
            r == self.spec_contains_interval(other),
    {
        self.start.0 <= other.start.0 && other.stop.0 <= self.stop.0
    }

    pub fn intersection(self, other: Interval) -> (r: Interval)
        ensures
            r == self.spec_intersection(other),
    {
        Interval {
            start: Timestamp(if self.start.0 >= other.start.0 { self.start.0 } else { other.start.0 }),
            stop: Timestamp(if self.stop.0 <= other.stop.0 { self.stop.0 } else { other.stop.0 }),
        }
    }

    pub fn union(self, other: Interval) -> (r: Interval)
        ensures
            r == self.spec_union(other),
    {
        Interval {
            start: Timestamp(if self.start.0 <= other.start.0 { self.start.0 } else { other.start.0 }),
            stop: Timestamp(if self.stop.0 >= other.stop.0 { self.stop.0 } else { other.stop.0 }),
        }
    }

    /// Clamp an `int` into the `i64` range.
    pub open spec fn clamp_i64(v: int) -> int {
        if v > i64::MAX {
            i64::MAX as int
        } else if v < i64::MIN {
            i64::MIN as int
        } else {
            v
        }
    }

    /// Expand (or, for negative `delta`, shrink) symmetrically on both ends,
    /// saturating at the representable range.
    pub fn grow(self, delta: i64) -> (r: Interval)
        ensures
            r.start.0 == Self::clamp_i64(self.start.0 - delta),
            r.stop.0 == Self::clamp_i64(self.stop.0 + delta),
    {
        Interval {
            start: Timestamp(saturating_sub_i64(self.start.0, delta)),
            stop: Timestamp(saturating_add_i64(self.stop.0, delta)),
        }
    }

    /// Shift both endpoints by `delta`, saturating at the representable range.
    pub fn translate(self, delta: i64) -> (r: Interval)
        ensures
            r.start.0 == Self::clamp_i64(self.start.0 + delta),
            r.stop.0 == Self::clamp_i64(self.stop.0 + delta),
    {
        Interval {
            start: Timestamp(saturating_add_i64(self.start.0, delta)),
            stop: Timestamp(saturating_add_i64(self.stop.0, delta)),
        }
    }

    /// Drop the part of the interval before `t`.
    pub fn subtract_before(self, t: Timestamp) -> (r: Interval)
        ensures
            r.stop == self.stop,
            r.start.0 == if self.start.0 >= t.0 { self.start.0 } else { t.0 },
    {
        Interval {
            start: Timestamp(if self.start.0 >= t.0 { self.start.0 } else { t.0 }),
            stop: self.stop,
        }
    }

    /// Drop the part of the interval at or after `t`.
    pub fn subtract_after(self, t: Timestamp) -> (r: Interval)
        ensures
            r.start == self.start,
            r.stop.0 == if self.stop.0 <= t.0 { self.stop.0 } else { t.0 },
    {
        Interval {
            start: self.start,
            stop: Timestamp(if self.stop.0 <= t.0 { self.stop.0 } else { t.0 }),
        }
    }

    /// The midpoint, rounded towards negative infinity.
    pub fn center(self) -> (r: Timestamp)
        requires
            self.wf(),
        ensures
            r.0 == self.start.0 + (self.sduration() / 2),
    {
        Timestamp(self.start.0 + (self.stop.0 - self.start.0) / 2)
    }
}

fn saturating_add_i64(a: i64, b: i64) -> (r: i64)
    ensures
        r == Interval::clamp_i64(a + b),
{
    let wide: i128 = a as i128 + b as i128;
    if wide > i64::MAX as i128 {
        i64::MAX
    } else if wide < i64::MIN as i128 {
        i64::MIN
    } else {
        wide as i64
    }
}

fn saturating_sub_i64(a: i64, b: i64) -> (r: i64)
    ensures
        r == Interval::clamp_i64(a - b),
{
    let wide: i128 = a as i128 - b as i128;
    if wide > i64::MAX as i128 {
        i64::MAX
    } else if wide < i64::MIN as i128 {
        i64::MIN
    } else {
        wide as i64
    }
}


/// Why a timestamp string could not be read.
#[derive(Debug, Copy, Clone, PartialEq, Eq, Structural)]
pub enum TimestampParseError {
    InvalidValue,
    NoUnit,
    InvalidUnit,
}

/// The value of a decimal digit character; 10 for anything else.
pub open spec fn dec_digit_val(c: char) -> nat {
    if c == '0' {
        0
    } else if c == '1' {
        1
    } else if c == '2' {
        2
    } else if c == '3' {
        3
    } else if c == '4' {
        4
    } else if c == '5' {
        5
    } else if c == '6' {
        6
    } else if c == '7' {
        7
    } else if c == '8' {
        8
    } else if c == '9' {
        9
    } else {
        10
    }
}

/// The number a run of decimal digits denotes, most significant first.
pub open spec fn dec_value(s: Seq<char>) -> nat
    decreases s.len(),
{
    if s.len() == 0 {
        0
    } else {
        dec_value(s.subrange(0, s.len() - 1)) * 10 + dec_digit_val(s[s.len() - 1])
    }
}

/// The length of the leading digit run.
pub open spec fn digit_run(s: Seq<char>) -> int
    decreases s.len(),
    via digit_run_decreases
{
    if s.len() == 0 || dec_digit_val(s[0]) >= 10 {
        0
    } else {
        1 + digit_run(s.subrange(1, s.len() as int))
    }
}

#[via_fn]
proof fn digit_run_decreases(s: Seq<char>) {
    if s.len() > 0 && dec_digit_val(s[0]) < 10 {
        vstd::seq::axiom_seq_subrange_decreases(s, 1, s.len() as int);
    }
}

/// The nanoseconds one unit suffix stands for, or `None` for anything that
/// is not a recognised unit.
pub open spec fn unit_multiplier(s: Seq<char>) -> Option<int> {
    if s == "ns"@ {
        Some(1int)
    } else if s == "us"@ {
        Some(1000int)
    } else if s == "ms"@ {
        Some(1000000int)
    } else if s == "s"@ {
        Some(1000000000int)
    } else {
        None
    }
}

/// What parsing a timestamp string yields: an optional minus sign, a digit
/// run, an optional single space, and a unit suffix; the scaled value must
/// fit the nanosecond range. A missing digit or an out-of-range value is
/// `InvalidValue`; nothing after the digits is `NoUnit`; any other tail is
/// `InvalidUnit`.
pub open spec fn spec_parse_timestamp(s: Seq<char>) -> Result<int, TimestampParseError> {
    let neg = s.len() > 0 && s[0] == '-';
    let body = if neg {
        s.subrange(1, s.len() as int)
    } else {
        s
    };
    let d = digit_run(body);
    if d == 0 {
        Err(TimestampParseError::InvalidValue)
    } else {
        let rest0 = body.subrange(d, body.len() as int);
        let rest = if rest0.len() > 0 && rest0[0] == ' ' {
            rest0.subrange(1, rest0.len() as int)
        } else {
            rest0
        };
        if rest.len() == 0 {
            Err(TimestampParseError::NoUnit)
        } else {
            match unit_multiplier(rest) {
                Some(mult) => {
                    let magnitude = dec_value(body.subrange(0, d)) * mult;
                    let v = if neg {
                        -magnitude
                    } else {
                        magnitude
                    };
                    if i64::MIN <= v <= i64::MAX {
                        Ok(v)
                    } else {
                        Err(TimestampParseError::InvalidValue)
                    }
                },
                None => Err(TimestampParseError::InvalidUnit),
            }
        }
    }
}

/// A digit run's value only grows as digits are appended.
proof fn lemma_dec_value_grows(s: Seq<char>, d: char)
    ensures
        dec_value(s.push(d)) >= dec_value(s),
{
    assert(s.push(d).subrange(0, s.push(d).len() - 1) =~= s);
    assert(s.push(d)[s.push(d).len() - 1] == d);
}

/// Scan the digit run from `start`: its end, its value, and whether the
/// value already exceeds the nanosecond range (then the value is capped).
fn scan_digits(cs: &Vec<char>, start: usize) -> (r: (usize, i128, bool))
    requires
        start <= cs@.len(),
    ensures
        start <= r.0 <= cs@.len(),
        forall|j: int| start <= j < r.0 ==> dec_digit_val(#[trigger] cs@[j]) < 10,
        r.0 < cs@.len() ==> dec_digit_val(cs@[r.0 as int]) >= 10,
        !r.2 ==> 0 <= r.1 <= 0x8000000000000000 && r.1 == dec_value(
            cs@.subrange(start as int, r.0 as int),
        ),
        r.2 ==> dec_value(cs@.subrange(start as int, r.0 as int)) > 0x8000000000000000,
{
    let n = cs.len();
    let bound: i128 = 0x8000000000000000;
    let mut magnitude: i128 = 0;
    let mut too_big = false;
    let mut i: usize = start;
    proof {
        assert(cs@.subrange(start as int, start as int) =~= Seq::<char>::empty());
    }
    while i < n && '0' <= cs[i] && cs[i] <= '9'
        invariant
            start <= i <= n,
            n == cs@.len(),
            bound == 0x8000000000000000,
            forall|j: int| start <= j < i ==> dec_digit_val(#[trigger] cs@[j]) < 10,
            0 <= magnitude <= bound,
            !too_big ==> magnitude == dec_value(cs@.subrange(start as int, i as int)),
            too_big ==> dec_value(cs@.subrange(start as int, i as int)) > bound,
        decreases n - i,
    {
        let c = cs[i];
        let d: i128 = (c as u32 - '0' as u32) as i128;
        proof {
            assert(dec_digit_val(c) < 10);
            assert(d == dec_digit_val(c));
            let pre = cs@.subrange(start as int, i as int);
            let cur = cs@.subrange(start as int, i + 1);
            assert(cur.subrange(0, cur.len() - 1) =~= pre);
            assert(cur[cur.len() - 1] == cs@[i as int]);
        }
        if too_big || magnitude > (bound - d) / 10 {
            proof {
                if !too_big {
                    assert(magnitude * 10 + d > bound) by (nonlinear_arith)
                        requires
                            magnitude > (bound - d) / 10,
                            0 <= d < 10,
                            bound == 0x8000000000000000,
                            magnitude >= 0,
                    ;
                } else {
                    let pre = cs@.subrange(start as int, i as int);
                    lemma_dec_value_grows(pre, cs@[i as int]);
                    assert(cs@.subrange(start as int, i + 1) =~= pre.push(cs@[i as int]));
                }
            }
            too_big = true;
        } else {
            magnitude = magnitude * 10 + d;
        }
        i = i + 1;
    }
    proof {
        if i < n {
            assert(!('0' <= cs@[i as int] && cs@[i as int] <= '9'));
            assert(dec_digit_val(cs@[i as int]) >= 10);
        }
    }
    (i, magnitude, too_big)
}

/// The multiplier the text from `u` on denotes as a unit suffix.
fn unit_of(cs: &Vec<char>, u: usize) -> (r: Option<i128>)
    requires
        u <= cs@.len(),
    ensures
        match r {
            Some(m) => 1 <= m <= 1000000000 && unit_multiplier(
                cs@.subrange(u as int, cs@.len() as int),
            ) == Some(m as int),
            None => unit_multiplier(cs@.subrange(u as int, cs@.len() as int)) is None,
        },
{
    let ghost rest = cs@.subrange(u as int, cs@.len() as int);
    let n = cs.len();
    let tail_len = n - u;
    if tail_len == 2 && cs[u] == 'n' && cs[u + 1] == 's' {
        proof {
            reveal_strlit("ns");
            reveal_strlit("us");
            reveal_strlit("ms");
            reveal_strlit("s");
            assert(rest =~= "ns"@);
        }
        Some(1)
    } else if tail_len == 2 && cs[u] == 'u' && cs[u + 1] == 's' {
        proof {
            reveal_strlit("ns");
            reveal_strlit("us");
            reveal_strlit("ms");
            reveal_strlit("s");
            assert(rest =~= "us"@);
        }
        Some(1000)
    } else if tail_len == 2 && cs[u] == 'm' && cs[u + 1] == 's' {
        proof {
            reveal_strlit("ns");
            reveal_strlit("us");
            reveal_strlit("ms");
            reveal_strlit("s");
            assert(rest =~= "ms"@);
        }
        Some(1000000)
    } else if tail_len == 1 && cs[u] == 's' {
        proof {
            reveal_strlit("ns");
            reveal_strlit("us");
            reveal_strlit("ms");
            reveal_strlit("s");
            assert(rest =~= "s"@);
        }
        Some(1000000000)
    } else {
        proof {
            reveal_strlit("ns");
            reveal_strlit("us");
            reveal_strlit("ms");
            reveal_strlit("s");
            assert(unit_multiplier(rest) is None) by {
                if rest == "ns"@ {
                    assert(rest.len() == 2 && rest[0] == 'n' && rest[1] == 's');
                }
                if rest == "us"@ {
                    assert(rest.len() == 2 && rest[0] == 'u' && rest[1] == 's');
                }
                if rest == "ms"@ {
                    assert(rest.len() == 2 && rest[0] == 'm' && rest[1] == 's');
                }
                if rest == "s"@ {
                    assert(rest.len() == 1 && rest[0] == 's');
                }
            }
        }
        None
    }
}

impl Timestamp {
    /// Read a timestamp with a unit suffix, such as a count of microseconds.
    pub fn parse(s: &str) -> (r: Result<Timestamp, TimestampParseError>)
        ensures
            match r {
                Ok(t) => spec_parse_timestamp(s@) == Ok::<int, TimestampParseError>(t.0 as int),
                Err(e) => spec_parse_timestamp(s@) == Err::<int, TimestampParseError>(e),
            },
    {
        let cs = crate::text::chars_of(s);
        let n = cs.len();
        let neg = n > 0 && cs[0] == '-';
        let start: usize = if neg {
            1
        } else {
            0
        };
        let ghost body = if neg {
            s@.subrange(1, s@.len() as int)
        } else {
            s@
        };
        proof {
            assert(body =~= cs@.subrange(start as int, cs@.len() as int));
        }

        let (i, magnitude, too_big) = scan_digits(&cs, start);
        let digits = i - start;
        proof {
            assert(cs@.subrange(start as int, i as int) =~= body.subrange(0, digits as int));
            lemma_digit_run_exact(body, digits as int);
        }
        if digits == 0 {
            return Err(TimestampParseError::InvalidValue);
        }

        // Skip one space, then read the unit.
        let mut u = i;
        if u < n && cs[u] == ' ' {
            u = u + 1;
        }
        let ghost rest0 = body.subrange(digits as int, body.len() as int);
        let ghost rest = body.subrange((u - start) as int, body.len() as int);
        proof {
            assert(rest =~= cs@.subrange(u as int, cs@.len() as int));
            if u > i {
                assert(rest =~= rest0.subrange(1, rest0.len() as int));
            } else {
                assert(rest =~= rest0);
            }
        }
        if u >= n {
            proof {
                assert(rest =~= Seq::<char>::empty());
            }
            return Err(TimestampParseError::NoUnit);
        }
        let mult: i128 = match unit_of(&cs, u) {
            Some(m) => m,
            None => {
                return Err(TimestampParseError::InvalidUnit);
            },
        };

        // Scale and range-check.
        let ghost mag_spec = dec_value(body.subrange(0, digits as int)) * unit_multiplier(
            rest,
        )->0;
        if too_big {
            proof {
                assert(mag_spec > 0x8000000000000000) by (nonlinear_arith)
                    requires
                        dec_value(body.subrange(0, digits as int)) > 0x8000000000000000,
                        unit_multiplier(rest)->0 >= 1,
                        mag_spec == dec_value(body.subrange(0, digits as int)) * unit_multiplier(
                            rest,
                        )->0,
                ;
            }
            return Err(TimestampParseError::InvalidValue);
        }
        proof {
            assert(magnitude * mult == mag_spec && 0 <= magnitude * mult <= 0x8000000000000000
                * 1000000000) by (nonlinear_arith)
                requires
                    0 <= magnitude <= 0x8000000000000000,
                    1 <= mult <= 1000000000,
                    magnitude == dec_value(body.subrange(0, digits as int)),
                    mult == unit_multiplier(rest)->0,
                    mag_spec == dec_value(body.subrange(0, digits as int)) * unit_multiplier(
                        rest,
                    )->0,
            ;
        }
        let scaled: i128 = magnitude * mult;
        if neg {
            if scaled > 0x8000000000000000 {
                return Err(TimestampParseError::InvalidValue);
            }
            Ok(Timestamp((-scaled) as i64))
        } else {
            if scaled > 0x8000000000000000 - 1 {
                return Err(TimestampParseError::InvalidValue);
            }
            Ok(Timestamp(scaled as i64))
        }
    }
}

/// A run of `d` digits followed by a non-digit (or the end) is exactly the
/// leading digit run.
proof fn lemma_digit_run_exact(s: Seq<char>, d: int)
    requires
        0 <= d <= s.len(),
        forall|j: int| 0 <= j < d ==> dec_digit_val(#[trigger] s[j]) < 10,
        d < s.len() ==> dec_digit_val(s[d]) >= 10,
    ensures
        digit_run(s) == d,
    decreases d,
{
    if d == 0 {
    } else {
        let tail = s.subrange(1, s.len() as int);
        assert(forall|j: int| 0 <= j < d - 1 ==> tail[j] == s[j + 1]);
        assert(d - 1 < tail.len() ==> tail[d - 1] == s[d]);
        lemma_digit_run_exact(tail, d - 1);
    }
}

} // verus!
