//! Choosing which tiles to request for a viewport: the best-matching pyramid
//! level of a static profile, or a single covering tile of a dynamic one,
//! with a per-fidelity memo of the last answer.

use vstd::prelude::*;

use crate::data::TileID;
use crate::data::TileSet;
use crate::map::key_view_set;
use crate::map::AssocMap;
use crate::timestamp::Interval;

verus! {

broadcast use vstd::seq::group_seq_axioms;

/// The pyramid as a sequence of levels, each a sequence of tiles.
pub open spec fn levels_of(ts: TileSet) -> Seq<Seq<TileID>> {
    Seq::new(ts.tiles@.len(), |l: int| ts.tiles@[l]@)
}

/// Whether the time point `p` lies inside the tile.
pub open spec fn tile_contains_point(t: TileID, p: int) -> bool {
    t.0.start.0 <= p < t.0.stop.0
}

/// Whether some tile of the level contains the time point `p`.
pub open spec fn level_covers(level: Seq<TileID>, p: int) -> bool {
    exists|k: int| 0 <= k < level.len() && tile_contains_point(#[trigger] level[k], p)
}

/// The duration of a level's first tile, the measure by which levels are
/// compared.
pub open spec fn level_duration(levels: Seq<Seq<TileID>>, l: int) -> int {
    levels[l][0].0.sduration()
}

/// The level durations, coarsest first.
pub open spec fn durations_of(levels: Seq<Seq<TileID>>) -> Seq<int> {
    Seq::new(levels.len(), |l: int| level_duration(levels, l))
}

/// A well-formed pyramid for the profile interval `total`: every level is
/// nonempty with a representable positive tile duration, later levels are no
/// coarser than earlier ones, and every level covers all of `total`.
pub open spec fn tile_set_wf(levels: Seq<Seq<TileID>>, total: Interval) -> bool {
    &&& total.wf()
    &&& forall|l: int| 0 <= l < levels.len() ==> (#[trigger] levels[l]).len() >= 1
    &&& forall|l: int|
        0 <= l < levels.len() ==> 1 <= #[trigger] level_duration(levels, l) <= i64::MAX
    &&& forall|i: int, j: int|
        0 <= i < j < levels.len() ==> level_duration(levels, j) <= level_duration(levels, i)
    &&& forall|l: int, p: int|
        0 <= l < levels.len() && total.start.0 <= p < total.stop.0 ==> #[trigger] level_covers(
            levels[l],
            p,
        )
}

/// Whether the tile-to-request size ratio of duration `d1` is strictly below
/// that of `d2`, for a request of duration `r`: the ratio of `d` is
/// `max(d, r) / min(d, r)`, compared here by cross-multiplication.
pub open spec fn ratio_lt(d1: int, d2: int, r: int) -> bool {
    vstd::math::max(d1, r) * vstd::math::min(d2, r) < vstd::math::max(d2, r) * vstd::math::min(
        d1,
        r,
    )
}

/// The first index among `durs` whose ratio to a request of duration `r` is
/// minimal: a later level replaces an earlier one only when strictly better.
pub open spec fn best_level(durs: Seq<int>, r: int) -> int
    decreases durs.len(),
{
    if durs.len() <= 1 {
        0
    } else {
        let prev = best_level(durs.drop_last(), r);
        if ratio_lt(durs.last(), durs[prev], r) {
            durs.len() - 1
        } else {
            prev
        }
    }
}

/// The tiles of `s` that overlap `request`, in order.
pub open spec fn overlapping_tiles(s: Seq<TileID>, request: Interval) -> Seq<TileID>
    decreases s.len(),
{
    if s.len() == 0 {
        Seq::empty()
    } else {
        let prefix = overlapping_tiles(s.drop_last(), request);
        if request.spec_overlaps(s.last().0) {
            prefix.push(s.last())
        } else {
            prefix
        }
    }
}

/// The level index that a request of duration `r` selects.
pub open spec fn chosen_level(levels: Seq<Seq<TileID>>, r: int, full: bool) -> int {
    if full {
        levels.len() - 1
    } else {
        best_level(durations_of(levels), r)
    }
}

/// The tiles to fetch for an already-intersected request interval.
pub open spec fn tiles_for_request(
    levels: Seq<Seq<TileID>>,
    request: Interval,
    full: bool,
) -> Seq<TileID> {
    if request.sduration() <= 0 {
        Seq::empty()
    } else if levels.len() == 0 {
        seq![TileID(request)]
    } else {
        overlapping_tiles(levels[chosen_level(levels, request.sduration(), full)], request)
    }
}

/// What `request_tiles` returns for a view interval: the request is the view
/// clipped to the profile interval.
pub open spec fn spec_request_tiles(
    levels: Seq<Seq<TileID>>,
    total: Interval,
    view: Interval,
    full: bool,
) -> Seq<TileID> {
    tiles_for_request(levels, view.spec_intersection(total), full)
}

/// `best_level` names a valid index.
pub proof fn lemma_best_level_in_range(durs: Seq<int>, r: int)
    requires
        durs.len() >= 1,
    ensures
        0 <= best_level(durs, r) < durs.len(),
    decreases durs.len(),
{
    if durs.len() > 1 {
        lemma_best_level_in_range(durs.drop_last(), r);
    }
}

/// `best_level` is minimal: no level's ratio is strictly smaller than the
/// chosen level's.
pub proof fn lemma_best_level_minimal(durs: Seq<int>, r: int)
    requires
        durs.len() >= 1,
        1 <= r,
        forall|i: int| 0 <= i < durs.len() ==> 1 <= #[trigger] durs[i],
    ensures
        0 <= best_level(durs, r) < durs.len(),
        forall|i: int|
            0 <= i < durs.len() ==> !ratio_lt(#[trigger] durs[i], durs[best_level(durs, r)], r),
    decreases durs.len(),
{
    lemma_best_level_in_range(durs, r);
    if durs.len() > 1 {
        let sub = durs.drop_last();
        lemma_best_level_minimal(sub, r);
        let prev = best_level(sub, r);
        assert forall|i: int| 0 <= i < durs.len() implies !ratio_lt(
            #[trigger] durs[i],
            durs[best_level(durs, r)],
            r,
        ) by {
            if i < durs.len() - 1 {
                assert(sub[i] == durs[i]);
                assert(sub[prev] == durs[prev]);
                assert(!ratio_lt(sub[i], sub[prev], r));
                if ratio_lt(durs.last(), durs[prev], r) {
                    // best is the last level; a smaller ratio at i would
                    // contradict minimality of prev over the prefix.
                    lemma_ratio_lt_trans(durs[i], durs.last(), durs[prev], r);
                }
            }
        }
    }
}

/// Transitivity used above: if `a < b` and `b < c` as ratios, then `a < c`.
proof fn lemma_ratio_lt_trans(a: int, b: int, c: int, r: int)
    requires
        1 <= a,
        1 <= b,
        1 <= c,
        1 <= r,
        !ratio_lt(a, c, r),
        ratio_lt(b, c, r),
    ensures
        !ratio_lt(a, b, r),
{
    let ma = vstd::math::max(a, r);
    let na = vstd::math::min(a, r);
    let mb = vstd::math::max(b, r);
    let nb = vstd::math::min(b, r);
    let mc = vstd::math::max(c, r);
    let nc = vstd::math::min(c, r);
    assert(ma * nc >= mc * na);
    assert(mb * nc < mc * nb);
    assert(1 <= na && 1 <= nb && 1 <= nc && na <= ma && nb <= mb && nc <= mc);
    assert(ma * nb >= mb * na) by (nonlinear_arith)
        requires
            ma * nc >= mc * na,
            mb * nc < mc * nb,
            1 <= na && 1 <= nb && 1 <= nc,
            1 <= ma && 1 <= mb && 1 <= mc,
    ;
}

/// Membership in the overlap filter: every returned tile overlaps the
/// request and comes from the level, and every overlapping tile of the level
/// is returned.
pub proof fn lemma_overlapping_tiles(s: Seq<TileID>, request: Interval)
    ensures
        forall|j: int|
            0 <= j < overlapping_tiles(s, request).len() ==> request.spec_overlaps(
                (#[trigger] overlapping_tiles(s, request)[j]).0,
            ) && s.contains(overlapping_tiles(s, request)[j]),
        forall|i: int|
            0 <= i < s.len() && request.spec_overlaps((#[trigger] s[i]).0) ==> overlapping_tiles(
                s,
                request,
            ).contains(s[i]),
    decreases s.len(),
{
    if s.len() > 0 {
        let sub = s.drop_last();
        lemma_overlapping_tiles(sub, request);
        let out = overlapping_tiles(s, request);
        let prefix = overlapping_tiles(sub, request);
        assert forall|j: int| 0 <= j < out.len() implies request.spec_overlaps(
            (#[trigger] out[j]).0,
        ) && s.contains(out[j]) by {
            if j < prefix.len() {
                assert(out[j] == prefix[j]);
                let w = choose|w: int| 0 <= w < sub.len() && sub[w] == prefix[j];
                assert(s[w] == prefix[j]);
            } else {
                assert(out[j] == s.last());
                assert(s[s.len() - 1] == s.last());
            }
        }
        assert forall|i: int|
            0 <= i < s.len() && request.spec_overlaps((#[trigger] s[i]).0) implies out.contains(
            s[i],
        ) by {
            if i < s.len() - 1 {
                assert(sub[i] == s[i]);
                assert(prefix.contains(s[i]));
                let w = choose|w: int| 0 <= w < prefix.len() && prefix[w] == s[i];
                assert(out[w] == s[i]);
            } else {
                assert(out[out.len() - 1] == s[i]);
            }
        }
    }
}

/// Coverage and minimality of the static answer: every returned tile
/// overlaps the clipped request; every tile of the chosen level that
/// overlaps it is returned; and every time point of the request lies in some
/// returned tile.
pub proof fn lemma_request_tiles_coverage(
    levels: Seq<Seq<TileID>>,
    total: Interval,
    view: Interval,
    full: bool,
)
    requires
        tile_set_wf(levels, total),
        levels.len() > 0,
    ensures
        forall|j: int|
            0 <= j < spec_request_tiles(levels, total, view, full).len()
                ==> view.spec_intersection(total).spec_overlaps(
                (#[trigger] spec_request_tiles(levels, total, view, full)[j]).0,
            ),
        forall|i: int|
            #![trigger levels[chosen_level(levels, view.spec_intersection(total).sduration(), full)][i]]
            {
                let request = view.spec_intersection(total);
                let lvl = levels[chosen_level(levels, request.sduration(), full)];
                request.sduration() > 0 && 0 <= i < lvl.len() && request.spec_overlaps(
                    lvl[i].0,
                ) ==> spec_request_tiles(levels, total, view, full).contains(lvl[i])
            },
        forall|p: int|
            view.spec_intersection(total).start.0 <= p < view.spec_intersection(total).stop.0
                ==> #[trigger] level_covers(spec_request_tiles(levels, total, view, full), p),
{
    let request = view.spec_intersection(total);
    let out = spec_request_tiles(levels, total, view, full);
    if request.sduration() > 0 {
        let c = chosen_level(levels, request.sduration(), full);
        if !full {
            lemma_best_level_in_range(durations_of(levels), request.sduration());
        }
        let lvl = levels[c];
        lemma_overlapping_tiles(lvl, request);
        assert forall|p: int| request.start.0 <= p < request.stop.0 implies #[trigger] level_covers(
            out,
            p,
        ) by {
            assert(total.start.0 <= p < total.stop.0);
            assert(level_covers(levels[c], p));
            let k = choose|k: int| 0 <= k < lvl.len() && tile_contains_point(#[trigger] lvl[k], p);
            assert(request.spec_overlaps(lvl[k].0));
            assert(out.contains(lvl[k]));
            let j = choose|j: int| 0 <= j < out.len() && out[j] == lvl[k];
            assert(tile_contains_point(out[j], p));
        }
    }
}

/// Monotone fidelity: for the same view, the level picked with `full` is at
/// least as fine-grained as the one picked without.
pub proof fn lemma_full_at_least_as_fine(levels: Seq<Seq<TileID>>, total: Interval, view: Interval)
    requires
        tile_set_wf(levels, total),
        levels.len() > 0,
        view.spec_intersection(total).sduration() > 0,
    ensures
        level_duration(levels, chosen_level(levels, view.spec_intersection(total).sduration(), true))
            <= level_duration(
            levels,
            chosen_level(levels, view.spec_intersection(total).sduration(), false),
        ),
{
    let r = view.spec_intersection(total).sduration();
    lemma_best_level_in_range(durations_of(levels), r);
}

/// Stability: the tile list depends only on the pyramid, the profile
/// interval, the view and the fidelity. `request_tiles` returns exactly
/// `spec_request_tiles` of those and never changes the pyramid or the
/// profile interval, so two consecutive calls with equal arguments return
/// equal lists.
pub proof fn lemma_request_tiles_stable(
    first: TileManager,
    second: TileManager,
    view: Interval,
    full: bool,
)
    requires
        second.levels() == first.levels(),
        second.total() == first.total(),
    ensures
        spec_request_tiles(second.levels(), second.total(), view, full) == spec_request_tiles(
            first.levels(),
            first.total(),
            view,
            full,
        ),
{
}


/// A contiguous, ordered run of tiles whose ends enclose `[lo, hi)` covers
/// every point of it.
proof fn lemma_contiguous_covers(level: Seq<TileID>, lo: int, hi: int)
    requires
        level.len() >= 1,
        level[0].0.start.0 <= lo,
        level[level.len() - 1].0.stop.0 >= hi,
        forall|i: int|
            0 <= i < level.len() - 1 ==> (#[trigger] level[i + 1]).0.start.0 <= level[i].0.stop.0,
        lo < hi,
    ensures
        forall|p: int| lo <= p < hi ==> level_covers(level, p),
    decreases level.len(),
{
    if level.len() == 1 {
        assert forall|p: int| lo <= p < hi implies level_covers(level, p) by {
            assert(tile_contains_point(level[0], p));
        }
    } else {
        let tail = level.subrange(1, level.len() as int);
        assert forall|p: int| lo <= p < hi implies level_covers(level, p) by {
            if p < level[0].0.stop.0 {
                assert(tile_contains_point(level[0], p));
            } else {
                let lo2 = level[0].0.stop.0 as int;
                assert(tail[0] == level[1]);
                assert(tail[tail.len() - 1] == level[level.len() - 1]);
                assert forall|i: int|
                    0 <= i < tail.len() - 1 implies (#[trigger] tail[i + 1]).0.start.0
                        <= tail[i].0.stop.0 by {
                    assert(tail[i + 1] == level[i + 2]);
                    assert(tail[i] == level[i + 1]);
                    assert(level[i + 2].0.start.0 <= level[i + 1].0.stop.0);
                }
                lemma_contiguous_covers(tail, lo2, hi);
                assert(level_covers(tail, p));
                let k = choose|k: int|
                    0 <= k < tail.len() && tile_contains_point(#[trigger] tail[k], p);
                assert(tile_contains_point(level[k + 1], p));
            }
        }
    }
}

/// Check a pyramid before trusting it: every level nonempty with a positive
/// representable first-tile duration, later levels no coarser, and each
/// level an ordered, gap-free run enclosing the profile interval. A passing
/// pyramid is well-formed; an unusually shaped one (tiles out of order) can
/// be well-formed yet fail the check, so this is a sufficient gate, not an
/// equivalence.
pub fn tile_set_ok(ts: &TileSet, total: Interval) -> (r: bool)
    ensures
        r ==> tile_set_wf(levels_of(*ts), total),
{
    let ghost levels = levels_of(*ts);
    if !(total.start.0 <= total.stop.0) {
        return false;
    }
    let span: i128 = total.stop.0 as i128 - total.start.0 as i128;
    if span > i64::MAX as i128 {
        return false;
    }
    let n = ts.tiles.len();
    let mut prev_dur: i64 = i64::MAX;
    for l in 0..n
        invariant
            levels == levels_of(*ts),
            n == levels.len(),
            total.wf(),
            1 <= prev_dur,
            forall|ll: int| 0 <= ll < l ==> (#[trigger] levels[ll]).len() >= 1,
            forall|ll: int|
                0 <= ll < l ==> 1 <= #[trigger] level_duration(levels, ll) <= i64::MAX,
            forall|ll: int| 0 <= ll < l ==> level_duration(levels, ll) >= prev_dur as int || ll
                == l - 1,
            forall|i: int, j: int|
                0 <= i < j < l ==> level_duration(levels, j) <= level_duration(levels, i),
            l > 0 ==> prev_dur as int == level_duration(levels, l - 1),
            forall|ll: int, p: int|
                0 <= ll < l && total.start.0 <= p < total.stop.0 ==> #[trigger] level_covers(
                    levels[ll],
                    p,
                ),
    {
        let level = &ts.tiles[l];
        proof {
            assert(levels[l as int] == level@);
        }
        if level.len() == 0 {
            return false;
        }
        let first = level[0].0;
        let dwide: i128 = first.stop.0 as i128 - first.start.0 as i128;
        if dwide < 1 || dwide > i64::MAX as i128 {
            return false;
        }
        let d = dwide as i64;
        if d > prev_dur {
            return false;
        }
        if !(first.start.0 <= total.start.0) {
            return false;
        }
        let m = level.len();
        if !(level[m - 1].0.stop.0 >= total.stop.0) {
            return false;
        }
        for i in 0..m - 1
            invariant
                m == level@.len(),
                m >= 1,
                levels[l as int] == level@,
                l < levels.len(),
                forall|ii: int|
                    0 <= ii < i ==> (#[trigger] level@[ii + 1]).0.start.0 <= level@[ii].0.stop.0,
        {
            if !(level[i + 1].0.start.0 <= level[i].0.stop.0) {
                return false;
            }
        }
        proof {
            assert(level_duration(levels, l as int) == d as int);
            if total.start.0 < total.stop.0 {
                lemma_contiguous_covers(level@, total.start.0 as int, total.stop.0 as int);
            }
            assert forall|p: int|
                total.start.0 <= p < total.stop.0 implies #[trigger] level_covers(
                levels[l as int],
                p,
            ) by {}
        }
        prev_dur = d;
    }
    proof {
        assert(tile_set_wf(levels, total)) by {
            assert forall|i: int, j: int|
                0 <= i < j < levels.len() implies level_duration(levels, j) <= level_duration(
                levels,
                i,
            ) by {}
        }
    }
    true
}

/// The memo of one fidelity: when a request interval is remembered, the
/// cached list is exactly what recomputing it would give.
pub open spec fn memo_ok(
    levels: Seq<Seq<TileID>>,
    last: Option<Interval>,
    cache: Seq<TileID>,
    full: bool,
) -> bool {
    match last {
        Some(req) => cache == tiles_for_request(levels, req, full),
        None => true,
    }
}

/// Decides the covering set of tiles for each viewport, remembering the last
/// answer per fidelity so that repeated identical requests are stable.
pub struct TileManager {
    tile_set: TileSet,
    interval: Interval,
    last_request_interval: (Option<Interval>, Option<Interval>),  // full: false, true
    tile_cache: (Vec<TileID>, Vec<TileID>),  // full: false, true
}

impl TileManager {
    /// The pyramid levels.
    pub closed spec fn levels(&self) -> Seq<Seq<TileID>> {
        levels_of(self.tile_set)
    }

    /// The total profile interval.
    pub closed spec fn total(&self) -> Interval {
        self.interval
    }

    pub closed spec fn spec_memo(&self, full: bool) -> Option<Interval> {
        if full {
            self.last_request_interval.1
        } else {
            self.last_request_interval.0
        }
    }

    pub closed spec fn spec_cache(&self, full: bool) -> Seq<TileID> {
        if full {
            self.tile_cache.1@
        } else {
            self.tile_cache.0@
        }
    }

    /// The pyramid is well-formed and both memos agree with recomputation.
    pub open spec fn wf(&self) -> bool {
        &&& tile_set_wf(self.levels(), self.total())
        &&& memo_ok(self.levels(), self.spec_memo(false), self.spec_cache(false), false)
        &&& memo_ok(self.levels(), self.spec_memo(true), self.spec_cache(true), true)
    }

    pub fn new(tile_set: TileSet, interval: Interval) -> (r: TileManager)
        requires
            tile_set_wf(levels_of(tile_set), interval),
        ensures
            r.wf(),
            r.levels() == levels_of(tile_set),
            r.total() == interval,
            r.spec_memo(false) is None,
            r.spec_memo(true) is None,
    {
        TileManager {
            tile_set,
            interval,
            last_request_interval: (None, None),
            tile_cache: (Vec::new(), Vec::new()),
        }
    }

    /// The covering set of tiles for a view interval at the given fidelity.
    ///
    /// The answer is a function of the pyramid, the profile interval, the
    /// view and `full` alone, and the pyramid and profile interval never
    /// change, so two consecutive calls with equal arguments return equal
    /// lists; the memo only avoids recomputation.
    pub fn request_tiles(&mut self, view_interval: Interval, full: bool) -> (r: Vec<TileID>)
        requires
            old(self).wf(),
        ensures
            final(self).wf(),
            final(self).levels() == old(self).levels(),
            final(self).total() == old(self).total(),
            r@ == spec_request_tiles(old(self).levels(), old(self).total(), view_interval, full),
    {
        if full {
            request_tiles_inner(
                &self.tile_set,
                self.interval,
                &mut self.last_request_interval.1,
                &mut self.tile_cache.1,
                view_interval,
                true,
            )
        } else {
            request_tiles_inner(
                &self.tile_set,
                self.interval,
                &mut self.last_request_interval.0,
                &mut self.tile_cache.0,
                view_interval,
                false,
            )
        }
    }

    /// Drop every cache entry whose tile is not in `tile_ids`: afterwards
    /// the cache's keys are a subset of `tile_ids`, and the surviving
    /// entries keep their values.
    pub fn invalidate_cache<T>(tile_ids: &Vec<TileID>, cache: &mut AssocMap<TileID, T>)
        requires
            old(cache).wf(),
        ensures
            final(cache).wf(),
            final(cache)@ == old(cache)@.restrict(key_view_set(tile_ids@)),
            forall|k: TileID|
                final(cache)@.contains_key(k) ==> key_view_set(tile_ids@).contains(k) && old(
                    cache,
                )@.contains_key(k) && final(cache)@[k] == old(cache)@[k],
    {
        cache.retain_keys(tile_ids);
    }
}

/// Clones a tile list; tiles are plain values.
fn clone_tiles(v: &Vec<TileID>) -> (r: Vec<TileID>)
    ensures
        r@ =~= v@,
{
    let mut r: Vec<TileID> = Vec::new();
    for i in 0..v.len()
        invariant
            r@ =~= v@.subrange(0, i as int),
    {
        r.push(v[i]);
    }
    r
}

/// Compares the ratios of two level durations against a request duration:
/// whether `d1`'s ratio is strictly smaller.
fn ratio_lt_exec(d1: i64, d2: i64, r: i64) -> (res: bool)
    requires
        1 <= d1,
        1 <= d2,
        1 <= r,
    ensures
        res == ratio_lt(d1 as int, d2 as int, r as int),
{
    let a: i128 = if d1 >= r {
        d1 as i128
    } else {
        r as i128
    };
    let b: i128 = if d2 <= r {
        d2 as i128
    } else {
        r as i128
    };
    let c: i128 = if d2 >= r {
        d2 as i128
    } else {
        r as i128
    };
    let d: i128 = if d1 <= r {
        d1 as i128
    } else {
        r as i128
    };
    proof {
        assert(a == vstd::math::max(d1 as int, r as int));
        assert(b == vstd::math::min(d2 as int, r as int));
        assert(c == vstd::math::max(d2 as int, r as int));
        assert(d == vstd::math::min(d1 as int, r as int));
        assert(a * b < i128::MAX && c * d < i128::MAX && a * b > i128::MIN && c * d > i128::MIN)
            by (nonlinear_arith)
            requires
                1 <= a <= i64::MAX,
                1 <= b <= i64::MAX,
                1 <= c <= i64::MAX,
                1 <= d <= i64::MAX,
        ;
    }
    let left: i128 = a * b;
    let right: i128 = c * d;
    left < right
}

/// The worker behind `request_tiles`, on the memo and cache of one fidelity.
fn request_tiles_inner(
    tile_set: &TileSet,
    total: Interval,
    last: &mut Option<Interval>,
    cache: &mut Vec<TileID>,
    view: Interval,
    full: bool,
) -> (r: Vec<TileID>)
    requires
        tile_set_wf(levels_of(*tile_set), total),
        memo_ok(levels_of(*tile_set), *old(last), old(cache)@, full),
    ensures
        memo_ok(levels_of(*tile_set), *final(last), final(cache)@, full),
        r@ == spec_request_tiles(levels_of(*tile_set), total, view, full),
{
    let ghost levels = levels_of(*tile_set);
    let request = view.intersection(total);

    // Memo hit: return the cached answer verbatim.
    let hit = match last {
        Some(prev) => prev.start.0 == request.start.0 && prev.stop.0 == request.stop.0,
        None => false,
    };
    if hit {
        proof {
            assert(*last is Some && last->0 == request);
        }
        return clone_tiles(cache);
    }

    // Clip and measure the request. A positive duration fits in i64 because
    // the request lies inside the well-formed profile interval.
    let wide: i128 = request.stop.0 as i128 - request.start.0 as i128;
    if wide <= 0 {
        cache.clear();
        *last = Some(request);
        proof {
            assert(tiles_for_request(levels, request, full) =~= Seq::<TileID>::empty());
        }
        return Vec::new();
    }
    let request_duration: i64 = wide as i64;

    // Dynamic profile: one tile covering the whole request.
    if tile_set.tiles.len() == 0 {
        let out: Vec<TileID> = vec![TileID(request)];
        cache.clear();
        cache.push(TileID(request));
        *last = Some(request);
        proof {
            assert(out@ =~= tiles_for_request(levels, request, full));
            assert(cache@ =~= tiles_for_request(levels, request, full));
        }
        return out;
    }

    // Static profile: pick the level, then keep its overlapping tiles.
    let n = tile_set.tiles.len();
    let ghost durs = durations_of(levels);
    let lvl: usize = if full {
        n - 1
    } else {
        let mut best: usize = 0;
        proof {
            assert(durs.subrange(0, 1) =~= seq![durs[0]]);
            assert(best_level(durs.subrange(0, 1), request_duration as int) == 0);
        }
        for i in 1..n
            invariant
                n == levels.len(),
                tile_set_wf(levels, total),
                levels == levels_of(*tile_set),
                durs == durations_of(levels),
                1 <= request_duration,
                best < i,
                best == best_level(durs.subrange(0, i as int), request_duration as int),
        {
            proof {
                assert(levels[i as int] == tile_set.tiles@[i as int]@);
                assert(levels[best as int] == tile_set.tiles@[best as int]@);
                assert(levels[i as int].len() >= 1);
                assert(levels[best as int].len() >= 1);
                assert(1 <= level_duration(levels, i as int) <= i64::MAX);
                assert(1 <= level_duration(levels, best as int) <= i64::MAX);
            }
            let di = tile_set.tiles[i][0].0.duration_ns();
            let db = tile_set.tiles[best][0].0.duration_ns();
            proof {
                assert(di == level_duration(levels, i as int));
                assert(db == level_duration(levels, best as int));
                assert(durs[i as int] == di && durs[best as int] == db);
            }
            if ratio_lt_exec(di, db, request_duration) {
                best = i;
            }
            proof {
                let pre = durs.subrange(0, i as int);
                let cur = durs.subrange(0, i + 1);
                assert(cur.drop_last() =~= pre);
                assert(cur.last() == durs[i as int]);
            }
        }
        proof {
            assert(durs.subrange(0, n as int) =~= durs);
        }
        best
    };
    proof {
        assert(lvl == chosen_level(levels, request_duration as int, full));
        if !full {
            lemma_best_level_in_range(durs, request_duration as int);
        }
        assert(levels[lvl as int] == tile_set.tiles@[lvl as int]@);
    }

    let level = &tile_set.tiles[lvl];
    let mut out: Vec<TileID> = Vec::new();
    for i in 0..level.len()
        invariant
            level@ == levels_of(*tile_set)[lvl as int],
            out@ == overlapping_tiles(level@.subrange(0, i as int), request),
    {
        proof {
            let pre = level@.subrange(0, i as int);
            let cur = level@.subrange(0, i + 1);
            assert(cur.drop_last() =~= pre);
            assert(cur.last() == level@[i as int]);
        }
        if request.overlaps(level[i].0) {
            out.push(level[i]);
        }
    }
    proof {
        assert(level@.subrange(0, level@.len() as int) =~= level@);
    }
    let result = clone_tiles(&out);
    cache.clear();
    let mut filled = out;
    core::mem::swap(cache, &mut filled);
    *last = Some(request);
    proof {
        assert(cache@ == tiles_for_request(levels, request, full));
        assert(result@ == tiles_for_request(levels, request, full));
    }
    result
}

} // verus!
