//! The URL- and filesystem-safe slug of a tile request, and its decoder.
//!
//! The slug is positional: one 17-character chunk per entry path step (a
//! type character and 16 hex digits), then the two timestamps (a sign
//! character and 16 hex digits each), then one fidelity character. Hex runs
//! least-significant digit first. Decoding a slug yields the request that
//! produced it.

use vstd::prelude::*;

use crate::data::EntryID;
use crate::data::EntryIndex;
use crate::data::TileID;
use crate::deferred_data::TileReqV;
use crate::deferred_data::TileRequest;
use crate::timestamp::Interval;
use crate::timestamp::Timestamp;

verus! {

broadcast use vstd::seq::group_seq_axioms;

/// Sixteen to the power `w`.
pub open spec fn pow16(w: nat) -> nat
    decreases w,
{
    if w == 0 {
        1
    } else {
        16 * pow16((w - 1) as nat)
    }
}

/// `pow16(16)` is the number of `u64` values.
pub proof fn lemma_pow16_16()
    ensures
        pow16(16) == 0x10000000000000000,
{
    reveal_with_fuel(pow16, 17);
}

/// The hex digit character of `d`, for `d < 16`.
pub open spec fn hex_digit(d: nat) -> char {
    if d == 0 {
        '0'
    } else if d == 1 {
        '1'
    } else if d == 2 {
        '2'
    } else if d == 3 {
        '3'
    } else if d == 4 {
        '4'
    } else if d == 5 {
        '5'
    } else if d == 6 {
        '6'
    } else if d == 7 {
        '7'
    } else if d == 8 {
        '8'
    } else if d == 9 {
        '9'
    } else if d == 10 {
        'a'
    } else if d == 11 {
        'b'
    } else if d == 12 {
        'c'
    } else if d == 13 {
        'd'
    } else if d == 14 {
        'e'
    } else {
        'f'
    }
}

/// The value of a hex digit character; 16 for anything else.
pub open spec fn digit_val(c: char) -> nat {
    if c == '0' {
        0
    } else if c == '1' {
        1
    } else if c == '2' {
        2
    } else if c == '3' {
        3
    } else if c == '4' {
        4
    } else if c == '5' {
        5
    } else if c == '6' {
        6
    } else if c == '7' {
        7
    } else if c == '8' {
        8
    } else if c == '9' {
        9
    } else if c == 'a' {
        10
    } else if c == 'b' {
        11
    } else if c == 'c' {
        12
    } else if c == 'd' {
        13
    } else if c == 'e' {
        14
    } else if c == 'f' {
        15
    } else {
        16
    }
}

/// The `w` hex digits of `n`, least significant first.
pub open spec fn hex_chars(n: nat, w: nat) -> Seq<char>
    decreases w,
{
    if w == 0 {
        Seq::empty()
    } else {
        seq![hex_digit(n % 16)] + hex_chars(n / 16, (w - 1) as nat)
    }
}

/// Whether every character is a hex digit.
pub open spec fn is_hex(s: Seq<char>) -> bool {
    forall|i: int| 0 <= i < s.len() ==> digit_val(#[trigger] s[i]) < 16
}

/// The number a least-significant-first hex digit run denotes.
pub open spec fn hex_value(s: Seq<char>) -> nat
    decreases s.len(),
{
    if s.len() == 0 {
        0
    } else {
        digit_val(s[0]) + 16 * hex_value(s.subrange(1, s.len() as int))
    }
}

/// A hex run has exactly its width.
pub proof fn lemma_hex_chars_len(n: nat, w: nat)
    ensures
        hex_chars(n, w).len() == w,
    decreases w,
{
    if w > 0 {
        lemma_hex_chars_len(n / 16, (w - 1) as nat);
    }
}

/// Writing `n < pow16(w)` in `w` hex digits and reading it back yields `n`.
pub proof fn lemma_hex_round(n: nat, w: nat)
    requires
        n < pow16(w),
    ensures
        hex_chars(n, w).len() == w,
        is_hex(hex_chars(n, w)),
        hex_value(hex_chars(n, w)) == n,
    decreases w,
{
    if w > 0 {
        lemma_hex_round(n / 16, (w - 1) as nat);
        let s = hex_chars(n, w);
        assert(s.subrange(1, s.len() as int) =~= hex_chars(n / 16, (w - 1) as nat));
        assert(digit_val(hex_digit(n % 16)) == n % 16);
        assert(n == 16 * (n / 16) + n % 16);
    }
}

/// The 17-character chunk of one entry path step: `n` plus the slot position
/// for a slot, `s` plus zeros for the summary marker.
pub open spec fn idx_chars(ix: EntryIndex) -> Seq<char> {
    match ix {
        EntryIndex::Slot(i) => seq!['n'] + hex_chars(i as nat, 16),
        EntryIndex::Summary => seq!['s'] + hex_chars(0, 16),
    }
}

/// The chunks of an entry path, in order.
pub open spec fn entry_chars(e: Seq<EntryIndex>) -> Seq<char>
    decreases e.len(),
{
    if e.len() == 0 {
        Seq::empty()
    } else {
        idx_chars(e[0]) + entry_chars(e.subrange(1, e.len() as int))
    }
}

/// A timestamp as a sign character and the 16 hex digits of its magnitude.
pub open spec fn ts_chars(v: int) -> Seq<char> {
    if v < 0 {
        seq!['m'] + hex_chars((-v) as nat, 16)
    } else {
        seq!['p'] + hex_chars(v as nat, 16)
    }
}

/// The slug of a tile request.
pub open spec fn spec_slug(rv: TileReqV) -> Seq<char> {
    entry_chars(rv.0) + ts_chars(rv.1.0.start.0 as int) + ts_chars(rv.1.0.stop.0 as int) + seq![
        if rv.2 {
            'f'
        } else {
            'p'
        },
    ]
}

/// Decode one timestamp chunk.
pub open spec fn parse_ts(s: Seq<char>) -> Option<int> {
    if s.len() != 17 {
        None
    } else if !is_hex(s.subrange(1, 17)) {
        None
    } else {
        let mag = hex_value(s.subrange(1, 17));
        if s[0] == 'm' {
            if mag <= 0x8000000000000000 {
                Some(-(mag as int))
            } else {
                None
            }
        } else if s[0] == 'p' {
            if mag <= 0x7fffffffffffffff {
                Some(mag as int)
            } else {
                None
            }
        } else {
            None
        }
    }
}

/// Decode `k` entry path chunks.
pub open spec fn parse_indices(s: Seq<char>, k: nat) -> Option<Seq<EntryIndex>>
    decreases k,
{
    if s.len() != 17 * k {
        None
    } else if k == 0 {
        Some(Seq::empty())
    } else {
        let head = if s[0] == 'n' {
            if is_hex(s.subrange(1, 17)) {
                Some(EntryIndex::Slot(hex_value(s.subrange(1, 17)) as u64))
            } else {
                None
            }
        } else if s[0] == 's' {
            Some(EntryIndex::Summary)
        } else {
            None
        };
        match head {
            Some(ix) => match parse_indices(s.subrange(17, s.len() as int), (k - 1) as nat) {
                Some(rest) => Some(seq![ix] + rest),
                None => None,
            },
            None => None,
        }
    }
}

/// Decode a slug back into a request value.
pub open spec fn spec_parse_slug(s: Seq<char>) -> Option<TileReqV> {
    if s.len() < 35 || (s.len() - 35) % 17 != 0 {
        None
    } else {
        let k = ((s.len() - 35) / 17) as nat;
        let e = parse_indices(s.subrange(0, 17 * k as int), k);
        let start = parse_ts(s.subrange(17 * k as int, 17 * k as int + 17));
        let stop = parse_ts(s.subrange(17 * k as int + 17, 17 * k as int + 34));
        let flag = s[s.len() - 1];
        if e is Some && start is Some && stop is Some && (flag == 'f' || flag == 'p') {
            Some(
                (
                    e->0,
                    TileID(
                        Interval {
                            start: Timestamp(start->0 as i64),
                            stop: Timestamp(stop->0 as i64),
                        },
                    ),
                    flag == 'f',
                ),
            )
        } else {
            None
        }
    }
}

/// Entry chunks take 17 characters each, and hold no timestamp sign
/// characters at chunk starts other than `n` and `s`.
pub proof fn lemma_entry_chars_len(e: Seq<EntryIndex>)
    ensures
        entry_chars(e).len() == 17 * e.len(),
    decreases e.len(),
{
    if e.len() > 0 {
        lemma_entry_chars_len(e.subrange(1, e.len() as int));
        match e[0] {
            EntryIndex::Slot(i) => {
                lemma_hex_chars_len(i as nat, 16);
            },
            EntryIndex::Summary => {
                lemma_hex_chars_len(0, 16);
            },
        }
        assert(idx_chars(e[0]).len() == 17);
    }
}

/// Decoding the chunks of an entry path yields the path.
pub proof fn lemma_indices_round(e: Seq<EntryIndex>)
    ensures
        parse_indices(entry_chars(e), e.len()) == Some(e),
    decreases e.len(),
{
    lemma_entry_chars_len(e);
    let s = entry_chars(e);
    if e.len() == 0 {
        assert(s =~= Seq::<char>::empty());
        assert(parse_indices(s, 0) == Some(Seq::<EntryIndex>::empty()));
        assert(e =~= Seq::<EntryIndex>::empty());
    } else {
        let tail = e.subrange(1, e.len() as int);
        lemma_indices_round(tail);
        lemma_entry_chars_len(tail);
        let chunk = idx_chars(e[0]);
        assert(s.subrange(17, s.len() as int) =~= entry_chars(tail));
        match e[0] {
            EntryIndex::Slot(i) => {
                lemma_pow16_16();
                lemma_hex_round(i as nat, 16);
                assert(s[0] == 'n');
                assert(s.subrange(1, 17) =~= hex_chars(i as nat, 16));
                assert(hex_value(s.subrange(1, 17)) == i as nat);
            },
            EntryIndex::Summary => {
                assert(s[0] == 's');
            },
        }
        assert(seq![e[0]] + tail =~= e);
    }
}

/// Decoding a timestamp chunk yields the timestamp.
pub proof fn lemma_ts_round(v: int)
    requires
        i64::MIN <= v <= i64::MAX,
    ensures
        ts_chars(v).len() == 17,
        parse_ts(ts_chars(v)) == Some(v),
{
    lemma_pow16_16();
    let s = ts_chars(v);
    if v < 0 {
        lemma_hex_round((-v) as nat, 16);
        assert(s.subrange(1, 17) =~= hex_chars((-v) as nat, 16));
        assert(s[0] == 'm');
    } else {
        lemma_hex_round(v as nat, 16);
        assert(s.subrange(1, 17) =~= hex_chars(v as nat, 16));
        assert(s[0] == 'p');
    }
}

/// Round trip: decoding the slug of any tile request yields that request.
pub proof fn lemma_slug_round_trip(rv: TileReqV)
    ensures
        spec_parse_slug(spec_slug(rv)) == Some(rv),
{
    let s = spec_slug(rv);
    let e = rv.0;
    let start = rv.1.0.start.0 as int;
    let stop = rv.1.0.stop.0 as int;
    lemma_entry_chars_len(e);
    lemma_ts_round(start);
    lemma_ts_round(stop);
    assert(s.len() == 17 * e.len() + 35);
    assert((s.len() - 35) % 17 == 0 && (s.len() - 35) / 17 == e.len()) by (nonlinear_arith)
        requires
            s.len() == 17 * e.len() + 35,
            e.len() >= 0,
    ;
    let k = e.len();
    assert(s.subrange(0, 17 * k as int) =~= entry_chars(e));
    assert(s.subrange(17 * k as int, 17 * k as int + 17) =~= ts_chars(start));
    assert(s.subrange(17 * k as int + 17, 17 * k as int + 34) =~= ts_chars(stop));
    assert(s[s.len() - 1] == if rv.2 {
        'f'
    } else {
        'p'
    });
    lemma_indices_round(e);
    assert(rv.1.0 == Interval { start: Timestamp(start as i64), stop: Timestamp(stop as i64) });
}

/// The hex digit character of `d < 16`.
fn hex_digit_of(d: u64) -> (r: char)
    requires
        d < 16,
    ensures
        r == hex_digit(d as nat),
{
    match d {
        0 => '0',
        1 => '1',
        2 => '2',
        3 => '3',
        4 => '4',
        5 => '5',
        6 => '6',
        7 => '7',
        8 => '8',
        9 => '9',
        10 => 'a',
        11 => 'b',
        12 => 'c',
        13 => 'd',
        14 => 'e',
        _ => 'f',
    }
}

/// The value of a hex digit character, or 16.
fn digit_val_of(c: char) -> (r: u64)
    ensures
        r == digit_val(c),
{
    match c {
        '0' => 0,
        '1' => 1,
        '2' => 2,
        '3' => 3,
        '4' => 4,
        '5' => 5,
        '6' => 6,
        '7' => 7,
        '8' => 8,
        '9' => 9,
        'a' => 10,
        'b' => 11,
        'c' => 12,
        'd' => 13,
        'e' => 14,
        'f' => 15,
        _ => 16,
    }
}

/// Append the 16 hex digits of `n`, least significant first.
fn push_hex16(out: &mut Vec<char>, n: u64)
    ensures
        final(out)@ =~= old(out)@ + hex_chars(n as nat, 16),
{
    let ghost base = out@;
    let mut cur = n;
    let mut k: usize = 0;
    while k < 16
        invariant
            k <= 16,
            out@ + hex_chars(cur as nat, (16 - k) as nat) =~= base + hex_chars(n as nat, 16),
        decreases 16 - k,
    {
        let ghost pre = out@;
        let d = cur % 16;
        out.push(hex_digit_of(d));
        proof {
            assert(hex_chars(cur as nat, (16 - k) as nat) =~= seq![hex_digit(cur as nat % 16)]
                + hex_chars(cur as nat / 16, (16 - (k + 1)) as nat));
            assert(out@ =~= pre.push(hex_digit(cur as nat % 16)));
            assert(out@ + hex_chars(cur as nat / 16, (16 - (k + 1)) as nat) =~= pre + hex_chars(
                cur as nat,
                (16 - k) as nat,
            ));
        }
        cur = cur / 16;
        k = k + 1;
    }
    proof {
        assert(hex_chars(cur as nat, 0) =~= Seq::<char>::empty());
        assert(out@ =~= out@ + hex_chars(cur as nat, 0));
    }
}

/// Read the 16 hex digits at `base`, least significant first.
fn hex16_at(cs: &Vec<char>, base: usize) -> (r: Option<u64>)
    requires
        base + 16 <= cs@.len(),
    ensures
        match r {
            Some(n) => is_hex(cs@.subrange(base as int, base + 16)) && n == hex_value(
                cs@.subrange(base as int, base + 16),
            ),
            None => !is_hex(cs@.subrange(base as int, base + 16)),
        },
{
    let total = cs.len();
    let ghost sub = cs@.subrange(base as int, base + 16);
    let mut acc: u64 = 0;
    let mut j: usize = 16;
    proof {
        lemma_pow16_16();
        assert(sub.subrange(16, 16) =~= Seq::<char>::empty());
    }
    while j > 0
        invariant
            j <= 16,
            base + 16 <= cs@.len(),
            total == cs@.len(),
            sub == cs@.subrange(base as int, base + 16),
            acc == hex_value(sub.subrange(j as int, 16)),
            acc < pow16((16 - j) as nat),
            pow16(16) == 0x10000000000000000,
            is_hex(sub.subrange(j as int, 16)),
        decreases j,
    {
        let c = cs[base + j - 1];
        let d = digit_val_of(c);
        if d >= 16 {
            proof {
                assert(sub[j - 1] == c);
            }
            return None;
        }
        proof {
            assert(pow16((16 - j + 1) as nat) == 16 * pow16((16 - j) as nat));
            assert(16 * acc + d < 16 * pow16((16 - j) as nat)) by (nonlinear_arith)
                requires
                    acc < pow16((16 - j) as nat),
                    d < 16,
                    acc >= 0,
                    pow16((16 - j) as nat) >= 1,
            ;
            assert(pow16((16 - j + 1) as nat) <= pow16(16)) by {
                lemma_pow16_mono((16 - j + 1) as nat, 16);
            }
        }
        acc = acc * 16 + d;
        let ghost jpre = j as int;
        j = j - 1;
        proof {
            let t = sub.subrange(j as int, 16);
            assert(t[0] == sub[j as int]);
            assert(sub[j as int] == c);
            assert(t.subrange(1, t.len() as int) =~= sub.subrange(jpre, 16));
            assert(acc == hex_value(t));
            assert forall|ii: int| 0 <= ii < t.len() implies digit_val(#[trigger] t[ii])
                < 16 by {
                if ii > 0 {
                    assert(t[ii] == sub.subrange(jpre, 16)[ii - 1]);
                }
            }
        }
    }
    proof {
        assert(sub.subrange(0, 16) =~= sub);
    }
    Some(acc)
}

/// Powers of sixteen grow with the exponent.
proof fn lemma_pow16_mono(a: nat, b: nat)
    requires
        a <= b,
    ensures
        pow16(a) <= pow16(b),
        pow16(a) >= 1,
    decreases b,
{
    if a < b {
        lemma_pow16_mono(a, (b - 1) as nat);
    } else if b > 0 {
        lemma_pow16_mono((a - 1) as nat, (b - 1) as nat);
    }
}

/// Append a timestamp chunk: sign character and magnitude.
fn push_ts(out: &mut Vec<char>, v: i64)
    ensures
        final(out)@ =~= old(out)@ + ts_chars(v as int),
{
    let ghost base = out@;
    if v < 0 {
        out.push('m');
        let mag: u64 = (-(v as i128)) as u64;
        proof {
            assert(mag as nat == -(v as int));
        }
        push_hex16(out, mag);
        proof {
            assert(out@ =~= base + ts_chars(v as int));
        }
    } else {
        out.push('p');
        push_hex16(out, v as u64);
        proof {
            assert(out@ =~= base + ts_chars(v as int));
        }
    }
}

/// Decode the timestamp chunk at `base`.
fn ts_at(cs: &Vec<char>, base: usize) -> (r: Option<i64>)
    requires
        base + 17 <= cs@.len(),
    ensures
        match r {
            Some(v) => parse_ts(cs@.subrange(base as int, base + 17)) == Some(v as int),
            None => parse_ts(cs@.subrange(base as int, base + 17)) is None,
        },
{
    let total = cs.len();
    let ghost sub = cs@.subrange(base as int, base + 17);
    let sign = cs[base];
    proof {
        assert(sub[0] == sign);
        assert(sub.len() == 17);
        assert(sub.subrange(1, 17) =~= cs@.subrange(base + 1, base + 17));
    }
    if sign != 'm' && sign != 'p' {
        return None;
    }
    let mag = match hex16_at(cs, base + 1) {
        Some(m) => m,
        None => {
            return None;
        },
    };
    if sign == 'm' {
        if mag <= 0x8000000000000000 {
            let v = (-(mag as i128)) as i64;
            proof {
                assert(v as int == -(mag as int));
            }
            Some(v)
        } else {
            None
        }
    } else {
        if mag <= 0x7fffffffffffffff {
            Some(mag as i64)
        } else {
            None
        }
    }
}

impl TileRequest {
    /// This request's slug: safe in URLs and file names, decodable by
    /// [`parse_slug`].
    pub fn to_slug(&self) -> (r: String)
        ensures
            r@ == spec_slug(self@),
    {
        let mut out: Vec<char> = Vec::new();
        let n = self.entry_id.len_indices();
        let ghost e = self.entry_id@;
        proof {
            assert(e.subrange(0, e.len() as int) =~= e);
        }
        for c in 0..n
            invariant
                n == e.len(),
                e == self.entry_id@,
                out@ + entry_chars(e.subrange(c as int, e.len() as int)) =~= entry_chars(e),
        {
            let ghost pre = out@;
            let ghost rest = e.subrange(c as int, e.len() as int);
            match self.entry_id.index_at(c) {
                EntryIndex::Slot(i) => {
                    out.push('n');
                    push_hex16(&mut out, i);
                },
                EntryIndex::Summary => {
                    out.push('s');
                    push_hex16(&mut out, 0);
                },
            }
            proof {
                assert(out@ =~= pre + idx_chars(e[c as int]));
                assert(rest.subrange(1, rest.len() as int) =~= e.subrange(
                    c + 1,
                    e.len() as int,
                ));
                assert(entry_chars(rest) =~= idx_chars(e[c as int]) + entry_chars(
                    e.subrange(c + 1, e.len() as int),
                ));
                assert(out@ + entry_chars(e.subrange(c + 1, e.len() as int)) =~= entry_chars(e));
            }
        }
        proof {
            assert(e.subrange(e.len() as int, e.len() as int) =~= Seq::<EntryIndex>::empty());
            assert(out@ =~= entry_chars(e));
        }
        push_ts(&mut out, self.tile_id.0.start.0);
        push_ts(&mut out, self.tile_id.0.stop.0);
        out.push(if self.full {
            'f'
        } else {
            'p'
        });
        proof {
            assert(out@ =~= spec_slug(self@));
        }
        crate::text::chars_to_string(&out)
    }
}

/// Decode a slug back into the request that produced it; `None` for text
/// that no request encodes to.
pub fn parse_slug(s: &str) -> (r: Option<TileRequest>)
    ensures
        match r {
            Some(q) => spec_parse_slug(s@) == Some(q@),
            None => spec_parse_slug(s@) is None,
        },
{
    let cs = crate::text::chars_of(s);
    let n = cs.len();
    if n < 35 || (n - 35) % 17 != 0 {
        return None;
    }
    let k = (n - 35) / 17;
    proof {
        vstd::arithmetic::div_mod::lemma_fundamental_div_mod((n - 35) as int, 17);
        assert(17 * k == n - 35);
    }
    let mut indices: Vec<EntryIndex> = Vec::new();
    for c in 0..k
        invariant
            cs@ =~= s@,
            n == cs@.len(),
            17 * k == n - 35,
            n >= 35,
            parse_indices(cs@.subrange(0, 17 * k as int), k as nat) == match parse_indices(
                cs@.subrange(17 * c as int, 17 * k as int),
                (k - c) as nat,
            ) {
                Some(rest) => Some(indices@ + rest),
                None => None::<Seq<EntryIndex>>,
            },
    {
        proof {
            assert(17 * (c as int) + 17 == 17 * (c + 1));
            assert(17 * (c + 1) <= 17 * (k as int));
        }
        let base = 17 * c;
        let tch = cs[base];
        let ghost chunkrest = cs@.subrange(17 * c as int, 17 * k as int);
        proof {
            assert(chunkrest.len() == 17 * ((k - c) as int));
            assert(chunkrest[0] == tch);
            assert(chunkrest.subrange(17, chunkrest.len() as int) =~= cs@.subrange(
                17 * (c + 1),
                17 * k as int,
            ));
            assert(chunkrest.subrange(1, 17) =~= cs@.subrange(base + 1, base + 17));
        }
        let ix: EntryIndex;
        if tch == 'n' {
            match hex16_at(&cs, base + 1) {
                Some(v) => {
                    ix = EntryIndex::Slot(v);
                    proof {
                        lemma_pow16_16();
                        assert(hex_value(chunkrest.subrange(1, 17)) < pow16(16)) by {
                            lemma_hex_value_bound(chunkrest.subrange(1, 17));
                        }
                    }
                },
                None => {
                    return None;
                },
            }
        } else if tch == 's' {
            ix = EntryIndex::Summary;
        } else {
            return None;
        }
        indices.push(ix);
        proof {
            assert(indices@ =~= indices@.subrange(0, indices@.len() - 1).push(ix));
            assert((indices@.subrange(0, indices@.len() - 1) + (seq![ix] + parse_rest_witness(
                cs@,
                c as int,
                k as int,
            ))) =~= (indices@ + parse_rest_witness(cs@, c as int, k as int)));
        }
    }
    proof {
        assert(cs@.subrange(17 * k as int, 17 * k as int) =~= Seq::<char>::empty());
        assert(parse_indices(cs@.subrange(17 * k as int, 17 * k as int), 0) == Some(
            Seq::<EntryIndex>::empty(),
        ));
        assert(indices@ + Seq::<EntryIndex>::empty() =~= indices@);
    }
    let start = match ts_at(&cs, 17 * k) {
        Some(v) => v,
        None => {
            return None;
        },
    };
    let stop = match ts_at(&cs, 17 * k + 17) {
        Some(v) => v,
        None => {
            return None;
        },
    };
    let flag = cs[n - 1];
    if flag != 'f' && flag != 'p' {
        return None;
    }
    let entry_id = EntryID::from_indices(indices);
    let req = TileRequest {
        entry_id,
        tile_id: TileID(Interval { start: Timestamp(start), stop: Timestamp(stop) }),
        full: flag == 'f',
    };
    proof {
        assert(cs@.subrange(17 * k as int, 17 * k as int + 17) =~= cs@.subrange(
            17 * k as int,
            17 * k + 17,
        ));
        assert(cs@.subrange(17 * k as int + 17, 17 * k as int + 34) =~= cs@.subrange(
            17 * k + 17,
            17 * k + 34,
        ));
        assert(spec_parse_slug(s@) == Some(req@));
    }
    Some(req)
}

/// A sixteen-digit hex run denotes a value below `pow16(16)`.
proof fn lemma_hex_value_bound(s: Seq<char>)
    requires
        is_hex(s),
    ensures
        hex_value(s) < pow16(s.len()),
    decreases s.len(),
{
    if s.len() == 0 {
    } else {
        let t = s.subrange(1, s.len() as int);
        assert(is_hex(t)) by {
            assert(forall|i: int| 0 <= i < t.len() ==> t[i] == s[i + 1]);
        }
        lemma_hex_value_bound(t);
        assert(digit_val(s[0]) < 16);
        assert(pow16(s.len()) == 16 * pow16((s.len() - 1) as nat));
        assert(digit_val(s[0]) + 16 * hex_value(t) < 16 * pow16(t.len())) by (nonlinear_arith)
            requires
                digit_val(s[0]) < 16,
                hex_value(t) < pow16(t.len()),
                hex_value(t) >= 0,
        ;
    }
}

/// What the rest of the chunks decode to; a name for the invariant's match.
pub open spec fn parse_rest_witness(cs: Seq<char>, c: int, k: int) -> Seq<EntryIndex> {
    match parse_indices(cs.subrange(17 * (c + 1), 17 * k), (k - c - 1) as nat) {
        Some(rest) => rest,
        None => Seq::empty(),
    }
}

} // verus!
