//! The view-state core: viewport navigation with undo history, interval
//! selection checks, visibility filters, per-slot tile caches with explicit
//! pending/ok/error states, and the sub-pixel display expansion of items.

use vstd::prelude::*;

use crate::data::EntryID;
use crate::data::Item;
use crate::data::ItemUID;
use crate::data::SlotMetaTileData;
use crate::data::SlotTileData;
use crate::data::TileID;
use crate::data::TileResult;
use crate::map::key_view_set;
use crate::map::AssocMap;
use crate::timestamp::Interval;
use crate::timestamp::TimestampParseError;
use crate::timestamp::Timestamp;

verus! {

broadcast use vstd::seq::group_seq_axioms;

/// How a view interval entered the history.
#[derive(Debug, Copy, Clone, PartialEq, Eq, Structural)]
pub enum IntervalOrigin {
    Zoom,
    Pan,
}

/// The pan/zoom history: the intervals visited, how each was reached, and
/// the current position.
pub struct IntervalState {
    pub levels: Vec<Interval>,
    pub origins: Vec<IntervalOrigin>,
    pub index: usize,
}

impl IntervalState {
    /// Parallel lists, with the index inside them whenever they are
    /// nonempty.
    pub open spec fn wf(&self) -> bool {
        &&& self.levels@.len() == self.origins@.len()
        &&& self.levels@.len() == 0 ==> self.index == 0
        &&& self.levels@.len() > 0 ==> self.index < self.levels@.len()
    }

    pub fn new() -> (r: IntervalState)
        ensures
            r.wf(),
            r.levels@.len() == 0,
            r.index == 0,
    {
        IntervalState { levels: Vec::new(), origins: Vec::new(), index: 0 }
    }
}

/// The navigation state: the union of all profiles' intervals, the visible
/// interval, and the history.
pub struct Context {
    pub total_interval: Interval,
    pub view_interval: Interval,
    pub view_interval_history: IntervalState,
}

/// The signed time shift of a pan: the given percentage of the view's
/// duration, to the left or to the right.
pub open spec fn spec_pan_delta(view: Interval, percent: u8, to_right: bool) -> int {
    let amount = view.sduration() * percent / 100;
    if to_right {
        amount
    } else {
        -amount
    }
}

/// How much history survives a new entry: everything up to the current
/// position, except that a pan replaces an immediately preceding pan.
pub open spec fn spec_keep_len(h: IntervalState, origin: IntervalOrigin) -> int {
    if h.levels@.len() == 0 {
        0
    } else if h.origins@[h.index as int] == IntervalOrigin::Pan && origin == IntervalOrigin::Pan {
        h.index as int
    } else {
        h.index + 1
    }
}

impl Context {
    pub open spec fn wf(&self) -> bool {
        self.view_interval_history.wf()
    }

    pub fn new(total_interval: Interval) -> (r: Context)
        ensures
            r.wf(),
            r.total_interval == total_interval,
            r.view_interval == total_interval,
            r.view_interval_history.levels@.len() == 0,
    {
        Context {
            total_interval,
            view_interval: total_interval,
            view_interval_history: IntervalState::new(),
        }
    }

    /// Make `interval` the view and push it on the history, dropping any
    /// redo tail; two pans in a row keep only the newer one.
    pub fn update_view_interval(&mut self, interval: Interval, origin: IntervalOrigin)
        requires
            old(self).wf(),
        ensures
            final(self).wf(),
            final(self).view_interval == interval,
            final(self).total_interval == old(self).total_interval,
            final(self).view_interval_history.levels@.len() > 0,
            final(self).view_interval_history.levels@.last() == interval,
            final(self).view_interval_history.origins@.last() == origin,
            final(self).view_interval_history.index + 1
                == final(self).view_interval_history.levels@.len(),
            final(self).view_interval_history.levels@ == old(
                self,
            ).view_interval_history.levels@.subrange(
                0,
                spec_keep_len(old(self).view_interval_history, origin),
            ).push(interval),
            final(self).view_interval_history.origins@ == old(
                self,
            ).view_interval_history.origins@.subrange(
                0,
                spec_keep_len(old(self).view_interval_history, origin),
            ).push(origin),
    {
        self.view_interval = interval;
        let history = &mut self.view_interval_history;
        let index = history.index;

        // Only keep at most one pan origin in a row.
        if history.levels.len() > 0 {
            let last_was_pan = match history.origins[index] {
                IntervalOrigin::Pan => true,
                IntervalOrigin::Zoom => false,
            };
            if last_was_pan && (origin == IntervalOrigin::Pan) {
                history.levels.truncate(index);
                history.origins.truncate(index);
            } else {
                history.levels.truncate(index + 1);
                history.origins.truncate(index + 1);
            }
        }
        history.levels.push(interval);
        history.origins.push(origin);
        history.index = history.levels.len() - 1;
    }

    /// Zoom to an interval; a zoom to the current view does nothing.
    pub fn zoom(&mut self, interval: Interval)
        requires
            old(self).wf(),
        ensures
            final(self).wf(),
            final(self).total_interval == old(self).total_interval,
            old(self).view_interval == interval ==> *final(self) == *old(self),
            old(self).view_interval != interval ==> final(self).view_interval == interval,
    {
        if self.view_interval.start.0 == interval.start.0 && self.view_interval.stop.0
            == interval.stop.0 {
            proof {
                assert(*self == *old(self));
            }
            return ;
        }
        self.update_view_interval(interval, IntervalOrigin::Zoom);
    }

    /// Pan by a percentage of the view's duration; left is negative. A zero
    /// percentage does nothing. Percentages run 0 to 100.
    pub fn pan(&mut self, percent: u8, to_right: bool)
        requires
            old(self).wf(),
            old(self).view_interval.wf(),
            percent <= 100,
        ensures
            final(self).wf(),
            final(self).total_interval == old(self).total_interval,
            percent == 0 ==> *final(self) == *old(self),
            percent > 0 ==> final(self).view_interval.start.0 == Interval::clamp_i64(
                old(self).view_interval.start.0 + spec_pan_delta(
                    old(self).view_interval,
                    percent,
                    to_right,
                ),
            ) && final(self).view_interval.stop.0 == Interval::clamp_i64(
                old(self).view_interval.stop.0 + spec_pan_delta(
                    old(self).view_interval,
                    percent,
                    to_right,
                ),
            ),
    {
        if percent == 0 {
            return ;
        }
        let duration = self.view_interval.duration_ns();
        proof {
            assert(duration as i128 * percent as i128 <= 100 * i64::MAX && duration as i128
                * percent as i128 >= 0) by (nonlinear_arith)
                requires
                    0 <= duration <= i64::MAX,
                    0 < percent <= 100,
            ;
        }
        let prod: i128 = duration as i128 * percent as i128;
        let wide: i128 = prod / 100;
        proof {
            assert(0 <= wide <= i64::MAX) by (nonlinear_arith)
                requires
                    0 <= prod <= 100 * i64::MAX,
                    wide == prod / 100,
            ;
        }
        let amount: i64 = wide as i64;
        let delta: i64 = if to_right {
            amount
        } else {
            -amount
        };
        proof {
            assert(delta as int == spec_pan_delta(self.view_interval, percent, to_right));
        }
        let target = self.view_interval.translate(delta);
        self.update_view_interval(target, IntervalOrigin::Pan);
    }

    /// Step back in the history; at the oldest entry this does nothing.
    pub fn undo_pan_zoom(&mut self)
        requires
            old(self).wf(),
        ensures
            final(self).wf(),
            final(self).total_interval == old(self).total_interval,
            old(self).view_interval_history.index == 0 ==> *final(self) == *old(self),
            old(self).view_interval_history.index > 0 ==> {
                &&& final(self).view_interval_history.index == old(
                    self,
                ).view_interval_history.index - 1
                &&& final(self).view_interval == old(self).view_interval_history.levels@[old(
                    self,
                ).view_interval_history.index - 1]
            },
    {
        if self.view_interval_history.index == 0 {
            return ;
        }
        self.view_interval_history.index = self.view_interval_history.index - 1;
        proof {
            assert(old(self).view_interval_history.levels@.len() > 0);
        }
        self.view_interval = self.view_interval_history.levels[self.view_interval_history.index];
    }

    /// Step forward in the history; at the newest entry this does nothing.
    pub fn redo_pan_zoom(&mut self)
        requires
            old(self).wf(),
        ensures
            final(self).wf(),
            final(self).total_interval == old(self).total_interval,
            old(self).view_interval_history.index + 1 >= old(
                self,
            ).view_interval_history.levels@.len() ==> *final(self) == *old(self),
            old(self).view_interval_history.index + 1 < old(
                self,
            ).view_interval_history.levels@.len() ==> {
                &&& final(self).view_interval_history.index == old(
                    self,
                ).view_interval_history.index + 1
                &&& final(self).view_interval == old(self).view_interval_history.levels@[old(
                    self,
                ).view_interval_history.index + 1]
            },
    {
        let n = self.view_interval_history.levels.len();
        let idx = self.view_interval_history.index;
        if idx >= n {
            return ;
        }
        if idx + 1 >= n {
            return ;
        }
        self.view_interval_history.index = idx + 1;
        self.view_interval = self.view_interval_history.levels[idx + 1];
    }

    /// Zoom in to the middle half of the view.
    pub fn zoom_in(&mut self)
        requires
            old(self).wf(),
            i64::MIN <= old(self).view_interval.sduration() <= i64::MAX,
        ensures
            final(self).wf(),
            final(self).total_interval == old(self).total_interval,
    {
        let quarter = -(self.view_interval.duration_ns() / 4);
        let target = self.view_interval.grow(quarter);
        self.zoom(target);
    }

    /// Zoom out to double the view, clipped to the profile.
    pub fn zoom_out(&mut self)
        requires
            old(self).wf(),
            i64::MIN <= old(self).view_interval.sduration() <= i64::MAX,
        ensures
            final(self).wf(),
            final(self).total_interval == old(self).total_interval,
    {
        let half = self.view_interval.duration_ns() / 2;
        let target = self.view_interval.grow(half).intersection(self.total_interval);
        self.zoom(target);
    }
}

/// Whether activating an item link zooms to the item or pans to it.
#[derive(Debug, Copy, Clone, PartialEq, Eq, Structural)]
pub enum ItemLinkNavigationMode {
    Zoom,
    Pan,
}

impl ItemLinkNavigationMode {
    /// The action label shown on item link buttons.
    pub fn label_text(&self) -> (r: &'static str)
        ensures
            *self matches ItemLinkNavigationMode::Zoom ==> r@ == "Zoom to Item"@,
            *self matches ItemLinkNavigationMode::Pan ==> r@ == "Pan to Item"@,
    {
        match *self {
            ItemLinkNavigationMode::Zoom => "Zoom to Item",
            ItemLinkNavigationMode::Pan => "Pan to Item",
        }
    }
}

/// Why an interval endpoint the user typed was rejected.
#[derive(Debug, Copy, Clone, PartialEq, Eq, Structural)]
pub enum IntervalSelectError {
    InvalidValue,
    NoUnit,
    InvalidUnit,
    StartAfterStop,
    StartAfterEnd,
    StopBeforeStart,
}

impl From<TimestampParseError> for IntervalSelectError {
    fn from(val: TimestampParseError) -> (r: IntervalSelectError) {
        match val {
            TimestampParseError::InvalidValue => IntervalSelectError::InvalidValue,
            TimestampParseError::NoUnit => IntervalSelectError::NoUnit,
            TimestampParseError::InvalidUnit => IntervalSelectError::InvalidUnit,
        }
    }
}

impl vstd::std_specs::convert::FromSpecImpl<TimestampParseError> for IntervalSelectError {
    open spec fn obeys_from_spec() -> bool {
        true
    }

    open spec fn from_spec(val: TimestampParseError) -> IntervalSelectError {
        match val {
            TimestampParseError::InvalidValue => IntervalSelectError::InvalidValue,
            TimestampParseError::NoUnit => IntervalSelectError::NoUnit,
            TimestampParseError::InvalidUnit => IntervalSelectError::InvalidUnit,
        }
    }
}

/// Check a typed interval start: it may not lie after the view's stop, nor
/// after the profile's end. On success the view keeps its stop.
pub fn select_interval_start(start: Timestamp, view: Interval, total: Interval) -> (r: Result<
    Interval,
    IntervalSelectError,
>)
    ensures
        start.0 > view.stop.0 <==> r == Err::<Interval, IntervalSelectError>(
            IntervalSelectError::StartAfterStop,
        ),
        start.0 <= view.stop.0 && start.0 > total.stop.0 <==> r == Err::<
            Interval,
            IntervalSelectError,
        >(IntervalSelectError::StartAfterEnd),
        start.0 <= view.stop.0 && start.0 <= total.stop.0 <==> r == Ok::<
            Interval,
            IntervalSelectError,
        >(Interval { start, stop: view.stop }),
{
    if start.0 > view.stop.0 {
        Err(IntervalSelectError::StartAfterStop)
    } else if start.0 > total.stop.0 {
        Err(IntervalSelectError::StartAfterEnd)
    } else {
        Ok(Interval { start, stop: view.stop })
    }
}

/// Check a typed interval stop: it may not lie before the view's start. On
/// success the view keeps its start.
pub fn select_interval_stop(stop: Timestamp, view: Interval) -> (r: Result<
    Interval,
    IntervalSelectError,
>)
    ensures
        stop.0 < view.start.0 <==> r == Err::<Interval, IntervalSelectError>(
            IntervalSelectError::StopBeforeStart,
        ),
        stop.0 >= view.start.0 <==> r == Ok::<Interval, IntervalSelectError>(
            Interval { start: view.start, stop },
        ),
{
    if stop.0 < view.start.0 {
        Err(IntervalSelectError::StopBeforeStart)
    } else {
        Ok(Interval { start: view.start, stop })
    }
}

/// The node-axis and kind-axis visibility filter: a level-one panel passes
/// when its position lies between the node bounds; a level-two panel when
/// the kind filter is empty or holds its label; anything else always passes.
pub fn is_slot_visible(
    entry_level: u64,
    last_slot: Option<u64>,
    label: &str,
    min_node: u64,
    max_node: u64,
    kind_filter: &Vec<String>,
) -> (r: bool)
    requires
        entry_level == 1 ==> last_slot is Some,
    ensures
        entry_level == 1 ==> r == (min_node <= last_slot->0 <= max_node),
        entry_level == 2 ==> r == (kind_filter@.len() == 0 || key_view_set(
            kind_filter@,
        ).contains(label@)),
        entry_level != 1 && entry_level != 2 ==> r,
{
    if entry_level == 1 {
        let index = match last_slot {
            Some(i) => i,
            None => {
                proof {
                    assert(false);
                }
                0
            },
        };
        min_node <= index && index <= max_node
    } else if entry_level == 2 {
        if kind_filter.len() == 0 {
            return true;
        }
        for i in 0..kind_filter.len()
            invariant
                entry_level == 2,
                kind_filter@.len() > 0,
                forall|j: int| 0 <= j < i ==> kind_filter@[j]@ != label@,
        {
            if crate::data::str_eq(kind_filter[i].as_str(), label) {
                proof {
                    assert(key_view_set(kind_filter@).contains(label@));
                }
                return true;
            }
        }
        proof {
            assert(!key_view_set(kind_filter@).contains(label@));
        }
        false
    } else {
        true
    }
}

/// A row of items ordered by time and pairwise disjoint inside the tile.
pub open spec fn row_wf(items: Seq<Item>, tile: Interval) -> bool {
    &&& forall|i: int| 0 <= i < items.len() ==> (#[trigger] items[i]).interval.wf()
    &&& forall|i: int|
        0 <= i < items.len() - 1 ==> (#[trigger] items[i]).interval.stop.0 <= items[i
            + 1].interval.start.0
    &&& forall|i: int|
        0 <= i < items.len() ==> tile.spec_contains_interval((#[trigger] items[i]).interval)
    &&& tile.wf()
}

/// The midpoint between two ordered time points.
pub open spec fn spec_mid(a: int, b: int) -> int {
    a + (b - a) / 2
}

/// The drawn bounds of one item: grown to at least a pixel when it is
/// narrower, clipped to the tile and to the midpoints towards its
/// neighbours' bounds.
pub open spec fn spec_drawn(items: Seq<Item>, tile: Interval, pixel_ns: int, i: int) -> Interval {
    let it = items[i].interval;
    if it.sduration() >= pixel_ns {
        it
    } else {
        let expand = (pixel_ns - it.sduration()) / 2;
        let lo0 = Interval::clamp_i64(it.start.0 - expand);
        let hi0 = Interval::clamp_i64(it.stop.0 + expand);
        let lo1 = if lo0 >= tile.start.0 {
            lo0
        } else {
            tile.start.0 as int
        };
        let hi1 = if hi0 <= tile.stop.0 {
            hi0
        } else {
            tile.stop.0 as int
        };
        let lo = if i > 0 && lo1 < spec_mid(items[i - 1].interval.stop.0 as int, it.start.0 as int) {
            spec_mid(items[i - 1].interval.stop.0 as int, it.start.0 as int)
        } else {
            lo1
        };
        let hi = if i < items.len() - 1 && hi1 > spec_mid(
            it.stop.0 as int,
            items[i + 1].interval.start.0 as int,
        ) {
            spec_mid(it.stop.0 as int, items[i + 1].interval.start.0 as int)
        } else {
            hi1
        };
        Interval { start: Timestamp(lo as i64), stop: Timestamp(hi as i64) }
    }
}

/// The display intervals of a row at the given pixel width: an item narrower
/// than a pixel is expanded symmetrically, clipped to the tile and to the
/// midpoint towards each neighbour, so the drawn row never overlaps; the
/// stored items are untouched.
pub fn expand_row(items: &Vec<Item>, tile: Interval, pixel_ns: i64) -> (r: Vec<Interval>)
    requires
        row_wf(items@, tile),
        pixel_ns >= 0,
    ensures
        r@.len() == items@.len(),
        forall|i: int|
            0 <= i < items@.len() ==> #[trigger] r@[i] == spec_drawn(
                items@,
                tile,
                pixel_ns as int,
                i,
            ),
        // The drawn row stays disjoint and ordered, like the stored one.
        forall|i: int| 0 <= i < items@.len() - 1 ==> (#[trigger] r@[i]).stop.0 <= r@[i + 1].start.0,
        // Drawing only expands: each drawn interval contains its item.
        forall|i: int|
            0 <= i < items@.len() ==> (#[trigger] r@[i]).start.0 <= items@[i].interval.start.0
                && r@[i].stop.0 >= items@[i].interval.stop.0,
{
    let n = items.len();
    let mut out: Vec<Interval> = Vec::new();
    for i in 0..n
        invariant
            n == items@.len(),
            row_wf(items@, tile),
            pixel_ns >= 0,
            out@.len() == i,
            forall|j: int|
                0 <= j < i ==> #[trigger] out@[j] == spec_drawn(items@, tile, pixel_ns as int, j),
    {
        let it = items[i].interval;
        let dur = it.duration_ns();
        if dur >= pixel_ns {
            out.push(it);
        } else {
            let expand = (pixel_ns - dur) / 2;
            let grown = it.grow(expand);
            let clipped = grown.intersection(tile);
            let mut lo = clipped.start.0;
            let mut hi = clipped.stop.0;
            if i > 0 {
                let prev_stop = items[i - 1].interval.stop.0;
                let m = mid_i64(prev_stop, it.start.0);
                if lo < m {
                    lo = m;
                }
            }
            if i < n - 1 {
                let next_start = items[i + 1].interval.start.0;
                let m = mid_i64(it.stop.0, next_start);
                if hi > m {
                    hi = m;
                }
            }
            out.push(Interval { start: Timestamp(lo), stop: Timestamp(hi) });
        }
    }
    proof {
        assert forall|i: int| 0 <= i < items@.len() - 1 implies (#[trigger] out@[i]).stop.0 <= out@[
            i + 1
        ].start.0 by {
            lemma_drawn_disjoint(items@, tile, pixel_ns as int, i);
        }
        assert forall|i: int| 0 <= i < items@.len() implies (#[trigger] out@[i]).start.0
            <= items@[i].interval.start.0 && out@[i].stop.0 >= items@[i].interval.stop.0 by {
            lemma_drawn_contains(items@, tile, pixel_ns as int, i);
        }
    }
    out
}

/// The midpoint of `[a, b]` with `a <= b`.
fn mid_i64(a: i64, b: i64) -> (r: i64)
    requires
        a <= b,
    ensures
        r == spec_mid(a as int, b as int),
        a <= r <= b,
{
    let wide: i128 = a as i128 + (b as i128 - a as i128) / 2;
    wide as i64
}

/// Neighbouring drawn intervals stay disjoint: each is clipped to the same
/// midpoint between the two items.
proof fn lemma_drawn_disjoint(items: Seq<Item>, tile: Interval, pixel_ns: int, i: int)
    requires
        row_wf(items, tile),
        pixel_ns >= 0,
        0 <= i < items.len() - 1,
    ensures
        spec_drawn(items, tile, pixel_ns, i).stop.0 <= spec_drawn(
            items,
            tile,
            pixel_ns,
            i + 1,
        ).start.0,
{
    let a = items[i].interval;
    let b = items[i + 1].interval;
    let m = spec_mid(a.stop.0 as int, b.start.0 as int);
    assert(a.stop.0 <= b.start.0);
    assert(a.stop.0 <= m <= b.start.0);
    assert(tile.spec_contains_interval(a));
    assert(tile.spec_contains_interval(b));
}

/// Each drawn interval contains its item.
proof fn lemma_drawn_contains(items: Seq<Item>, tile: Interval, pixel_ns: int, i: int)
    requires
        row_wf(items, tile),
        pixel_ns >= 0,
        0 <= i < items.len(),
    ensures
        spec_drawn(items, tile, pixel_ns, i).start.0 <= items[i].interval.start.0,
        spec_drawn(items, tile, pixel_ns, i).stop.0 >= items[i].interval.stop.0,
{
    let it = items[i].interval;
    assert(tile.spec_contains_interval(it));
    if i > 0 {
        assert(items[i - 1].interval.stop.0 <= it.start.0);
    }
    if i < items.len() - 1 {
        assert(it.stop.0 <= items[i + 1].interval.start.0);
    }
}

/// One tile cache: `None` is a pending placeholder; `Some` holds the fetched
/// data or the backend error shown as a red band.
pub type TileCache<D> = AssocMap<TileID, Option<TileResult<D>>>;

/// Restrict a tile cache to the current covering set and insert a pending
/// placeholder for every covering tile not yet present; those are the tiles
/// to fetch.
pub fn invalidate_and_fill<D>(cache: &mut TileCache<D>, tile_ids: &Vec<TileID>) -> (to_fetch: Vec<
    TileID,
>)
    requires
        old(cache).wf(),
    ensures
        final(cache).wf(),
        // Exactly the covering tiles remain, old entries surviving.
        forall|t: TileID|
            final(cache)@.contains_key(t) ==> key_view_set(tile_ids@).contains(t),
        forall|j: int|
            0 <= j < tile_ids@.len() ==> final(cache)@.contains_key(#[trigger] tile_ids@[j]),
        forall|t: TileID|
            final(cache)@.contains_key(t) ==> final(cache)@[t] == if old(cache)@.contains_key(t) {
                old(cache)@[t]
            } else {
                None::<TileResult<D>>
            },
        // The tiles reported for fetching are exactly the covering tiles
        // that were absent.
        forall|j: int|
            0 <= j < to_fetch@.len() ==> key_view_set(tile_ids@).contains(#[trigger] to_fetch@[j])
                && !old(cache)@.contains_key(to_fetch@[j]),
        forall|j: int|
            0 <= j < tile_ids@.len() && !old(cache)@.contains_key(#[trigger] tile_ids@[j])
                ==> to_fetch@.contains(tile_ids@[j]),
{
    cache.retain_keys(tile_ids);
    let mut to_fetch: Vec<TileID> = Vec::new();
    let ghost restricted = cache@;
    for j in 0..tile_ids.len()
        invariant
            cache.wf(),
            restricted == old(cache)@.restrict(key_view_set(tile_ids@)),
            forall|t: TileID| restricted.contains_key(t) ==> cache@.contains_key(t),
            forall|t: TileID|
                cache@.contains_key(t) ==> key_view_set(tile_ids@).contains(t),
            forall|jj: int|
                0 <= jj < j ==> cache@.contains_key(#[trigger] tile_ids@[jj]),
            forall|t: TileID|
                cache@.contains_key(t) ==> cache@[t] == if old(cache)@.contains_key(t) {
                    old(cache)@[t]
                } else {
                    None::<TileResult<D>>
                },
            forall|jj: int|
                0 <= jj < to_fetch@.len() ==> key_view_set(tile_ids@).contains(
                    #[trigger] to_fetch@[jj],
                ) && !old(cache)@.contains_key(to_fetch@[jj]),
            forall|jj: int|
                0 <= jj < j && !old(cache)@.contains_key(#[trigger] tile_ids@[jj])
                    ==> to_fetch@.contains(tile_ids@[jj]),
            forall|t: TileID|
                cache@.contains_key(t) && !old(cache)@.contains_key(t) ==> to_fetch@.contains(t),
    {
        let ghost cache0 = cache@;
        let ghost fetch0 = to_fetch@;
        let t = tile_ids[j];
        proof {
            assert(key_view_set(tile_ids@).contains(t));
        }
        if !cache.contains_key(&t) {
            proof {
                assert(!old(cache)@.contains_key(t)) by {
                    if old(cache)@.contains_key(t) {
                        assert(restricted.contains_key(t));
                    }
                }
            }
            cache.insert(t, None);
            let ghost pre = to_fetch@;
            to_fetch.push(t);
            proof {
                assert forall|jj: int|
                    0 <= jj < j + 1 && !old(cache)@.contains_key(
                        #[trigger] tile_ids@[jj],
                    ) implies to_fetch@.contains(tile_ids@[jj]) by {
                    if jj < j {
                        let w = choose|w: int| 0 <= w < pre.len() && pre[w] == tile_ids@[jj];
                        assert(to_fetch@[w] == tile_ids@[jj]);
                    } else {
                        assert(to_fetch@[to_fetch@.len() - 1] == tile_ids@[jj]);
                    }
                }
                assert forall|tt: TileID|
                    cache@.contains_key(tt) && !old(cache)@.contains_key(
                        tt,
                    ) implies to_fetch@.contains(tt) by {
                    if tt == t {
                        assert(to_fetch@[to_fetch@.len() - 1] == tt);
                    } else {
                        assert(cache0.contains_key(tt));
                        assert(fetch0.contains(tt));
                        let w = choose|w: int| 0 <= w < fetch0.len() && fetch0[w] == tt;
                        assert(to_fetch@[w] == tt);
                    }
                }
            }
        }
    }
    to_fetch
}

/// Store an arrived response under its tile, but only when the tile is still
/// wanted: a late response for an invalidated tile is dropped silently. The
/// last stored value wins.
pub fn absorb_tile<D>(cache: &mut TileCache<D>, tile_id: TileID, value: TileResult<D>) -> (stored:
    bool)
    requires
        old(cache).wf(),
    ensures
        final(cache).wf(),
        stored == old(cache)@.contains_key(tile_id),
        stored ==> final(cache)@ =~= old(cache)@.insert(tile_id, Some(value)),
        !stored ==> final(cache)@ == old(cache)@,
{
    cache.update_if_present(&tile_id, Some(value))
}

/// Make sure a metadata tile is requested: absent tiles get a pending
/// placeholder and are reported for fetching; present ones are left alone.
pub fn ensure_requested<D>(cache: &mut TileCache<D>, tile_id: TileID) -> (needs_fetch: bool)
    requires
        old(cache).wf(),
    ensures
        final(cache).wf(),
        needs_fetch == !old(cache)@.contains_key(tile_id),
        needs_fetch ==> final(cache)@ =~= old(cache)@.insert(tile_id, None::<TileResult<D>>),
        !needs_fetch ==> final(cache)@ == old(cache)@,
{
    if cache.contains_key(&tile_id) {
        false
    } else {
        cache.insert(tile_id, None);
        true
    }
}

/// The rows a slot occupies on screen when collapsed.
pub const UNEXPANDED_ROWS: u64 = 2;

/// One leaf timeline and its three tile caches: display items, screen
/// resolution metadata, and full metadata for search and export.
pub struct Slot {
    pub entry_id: EntryID,
    pub short_name: String,
    pub long_name: String,
    pub expanded: bool,
    pub max_rows: u64,
    pub tiles: TileCache<SlotTileData>,
    pub tile_metas: TileCache<SlotMetaTileData>,
    pub tile_metas_full: TileCache<SlotMetaTileData>,
}

/// Whether the display tile `t` in `tiles` holds `uid` at position `(row, j)`
/// with screen row `irow`.
pub open spec fn found_irow_in(
    tiles: Map<TileID, Option<TileResult<SlotTileData>>>,
    t: TileID,
    row: int,
    j: int,
    uid: ItemUID,
    irow: usize,
) -> bool {
    &&& tiles.contains_key(t)
    &&& tiles[t] matches Some(Ok(d))
    &&& 0 <= row < (tiles[t]->0->Ok_0).dview().len()
    &&& 0 <= j < (tiles[t]->0->Ok_0).dview()[row].len()
    &&& (tiles[t]->0->Ok_0).dview()[row][j].item_uid == uid
    &&& irow == (tiles[t]->0->Ok_0).dview().len() - row - 1
}

/// Whether the display tile `t` holds `uid` at position `(row, j)`.
pub open spec fn tile_holds(
    tiles: Map<TileID, Option<TileResult<SlotTileData>>>,
    t: TileID,
    row: int,
    j: int,
    uid: ItemUID,
) -> bool {
    &&& tiles.contains_key(t)
    &&& tiles[t] matches Some(Ok(d))
    &&& 0 <= row < (tiles[t]->0->Ok_0).dview().len()
    &&& 0 <= j < (tiles[t]->0->Ok_0).dview()[row].len()
    &&& (tiles[t]->0->Ok_0).dview()[row][j].item_uid == uid
}

/// Whether the tile `t` holds `uid` nowhere.
pub open spec fn no_hit_at(
    tiles: Map<TileID, Option<TileResult<SlotTileData>>>,
    t: TileID,
    uid: ItemUID,
) -> bool {
    forall|row: int, j: int| #![trigger tile_holds(tiles, t, row, j, uid)]
        !tile_holds(tiles, t, row, j, uid)
}

/// Whether any loaded display tile holds `uid`.
pub open spec fn holds_item(
    tiles: Map<TileID, Option<TileResult<SlotTileData>>>,
    uid: ItemUID,
) -> bool {
    exists|t: TileID, row: int, j: int| #[trigger] tile_holds(tiles, t, row, j, uid)
}

/// Whether some loaded display tile holds `uid` at screen row `irow`.
pub open spec fn some_item_at(
    tiles: Map<TileID, Option<TileResult<SlotTileData>>>,
    uid: ItemUID,
    irow: usize,
) -> bool {
    exists|t: TileID, row: int, j: int| #[trigger] found_irow_in(tiles, t, row, j, uid, irow)
}

impl Slot {
    pub open spec fn wf(&self) -> bool {
        &&& self.tiles.wf()
        &&& self.tile_metas.wf()
        &&& self.tile_metas_full.wf()
    }

    pub fn new(entry_id: EntryID, short_name: String, long_name: String, max_rows: u64) -> (r:
        Slot)
        ensures
            r.wf(),
            r.entry_id@ == entry_id@,
            r.short_name@ == short_name@,
            r.long_name@ == long_name@,
            r.expanded,
            r.max_rows == max_rows,
            r.tiles@ =~= Map::<TileID, Option<TileResult<SlotTileData>>>::empty(),
            r.tile_metas@ =~= Map::<TileID, Option<TileResult<SlotMetaTileData>>>::empty(),
            r.tile_metas_full@ =~= Map::<TileID, Option<TileResult<SlotMetaTileData>>>::empty(),
    {
        Slot {
            entry_id,
            short_name,
            long_name,
            expanded: true,
            max_rows,
            tiles: AssocMap::new(),
            tile_metas: AssocMap::new(),
            tile_metas_full: AssocMap::new(),
        }
    }

    /// The rows this slot occupies on screen: its own row count when
    /// expanded (at least the collapsed height), the collapsed height
    /// otherwise.
    pub fn rows(&self) -> (r: u64)
        ensures
            r == if self.expanded {
                if self.max_rows >= UNEXPANDED_ROWS {
                    self.max_rows
                } else {
                    UNEXPANDED_ROWS
                }
            } else {
                UNEXPANDED_ROWS
            },
    {
        if self.expanded {
            if self.max_rows >= UNEXPANDED_ROWS {
                self.max_rows
            } else {
                UNEXPANDED_ROWS
            }
        } else {
            UNEXPANDED_ROWS
        }
    }

    pub fn toggle_expanded(&mut self)
        ensures
            final(self).expanded == !old(self).expanded,
            final(self).tiles == old(self).tiles,
            final(self).tile_metas == old(self).tile_metas,
            final(self).tile_metas_full == old(self).tile_metas_full,
    {
        self.expanded = !self.expanded;
    }

    /// The screen row of the item, scanning the loaded display tiles: rows
    /// are counted from the bottom in screen space.
    pub fn find_item_irow(&self, item_uid: ItemUID) -> (r: Option<usize>)
        requires
            self.wf(),
        ensures
            match r {
                Some(irow) => some_item_at(self.tiles@, item_uid, irow),
                None => !holds_item(self.tiles@, item_uid),
            },
    {
        let n = self.tiles.len();
        for ti in 0..n
            invariant
                self.wf(),
                n == self.tiles.key_seq().len(),
                forall|tt: int|
                    0 <= tt < ti ==> no_hit_at(
                        self.tiles@,
                        #[trigger] self.tiles.key_seq()[tt],
                        item_uid,
                    ),
        {
            let t = *self.tiles.key_at(ti);
            proof {
                self.tiles.lemma_entries();
                assert(self.tiles@.contains_key(self.tiles.key_seq()[ti as int]));
            }
            match self.tiles.get(&t) {
                Some(v) => match v {
                    Some(res) => match res {
                        Ok(d) => {
                            let rows = d.items.len();
                            for row in 0..rows
                                invariant
                                    self.wf(),
                                    self.tiles@.contains_key(t),
                                    self.tiles@[t] matches Some(Ok(dd)) && dd == d,
                                    rows == d.items@.len(),
                                    forall|rr: int, j: int|
                                        #![trigger tile_holds(self.tiles@, t, rr, j, item_uid)]
                                        0 <= rr < row ==> !tile_holds(
                                            self.tiles@,
                                            t,
                                            rr,
                                            j,
                                            item_uid,
                                        ),
                            {
                                let row_items = &d.items[row];
                                for j in 0..row_items.len()
                                    invariant
                                        self.wf(),
                                        self.tiles@.contains_key(t),
                                        self.tiles@[t] matches Some(Ok(dd)) && dd == d,
                                        rows == d.items@.len(),
                                        row < rows,
                                        row_items == d.items@[row as int],
                                        forall|jj: int|
                                            0 <= jj < j ==> d.dview()[row as int][jj].item_uid
                                                != item_uid,
                                {
                                    if row_items[j].item_uid.0 == item_uid.0 {
                                        proof {
                                            let dv = d.dview();
                                            assert(dv[row as int][j as int].item_uid == item_uid);
                                            assert(found_irow_in(
                                                self.tiles@,
                                                t,
                                                row as int,
                                                j as int,
                                                item_uid,
                                                (rows - row - 1) as usize,
                                            ));
                                            assert(some_item_at(
                                                self.tiles@,
                                                item_uid,
                                                (rows - row - 1) as usize,
                                            ));
                                        }
                                        return Some(rows - row - 1);
                                    }
                                    proof {
                                        assert(d.dview()[row as int][j as int].item_uid
                                            == d.items@[row as int]@[j as int].item_uid);
                                    }
                                }
                                proof {
                                    assert forall|rr: int, jj: int|
                                        #![trigger tile_holds(self.tiles@, t, rr, jj, item_uid)]
                                        0 <= rr < row + 1 implies !tile_holds(
                                        self.tiles@,
                                        t,
                                        rr,
                                        jj,
                                        item_uid,
                                    ) by {
                                        if rr == row && 0 <= jj < d.dview()[rr].len() {
                                            assert(d.dview()[rr][jj].item_uid != item_uid);
                                        }
                                    }
                                }
                            }
                            proof {
                                assert(no_hit_at(self.tiles@, t, item_uid));
                            }
                        },
                        Err(_) => {
                            proof {
                                assert(no_hit_at(self.tiles@, t, item_uid));
                            }
                        },
                    },
                    None => {
                        proof {
                            assert(no_hit_at(self.tiles@, t, item_uid));
                        }
                    },
                },
                None => {
                    proof {
                        assert(false);
                    }
                },
            }
            proof {
                assert(self.tiles.key_seq()[ti as int] == t);
            }
        }
        proof {
            assert(!holds_item(self.tiles@, item_uid)) by {
                if holds_item(self.tiles@, item_uid) {
                    let (t, row, j) = choose|t: TileID, row: int, j: int|
                        #[trigger] tile_holds(self.tiles@, t, row, j, item_uid);
                    self.tiles.lemma_entries();
                    let tt = choose|tt: int|
                        0 <= tt < self.tiles.key_seq().len() && self.tiles.key_seq()[tt] == t;
                    assert(no_hit_at(self.tiles@, self.tiles.key_seq()[tt], item_uid));
                    assert(!tile_holds(self.tiles@, t, row, j, item_uid));
                }
            }
        }
        None
    }
}

/// Where to scroll for an item: its entry, its screen row when known, and
/// the item itself so a later tile can resolve the row.
#[derive(Debug)]
pub struct ItemLocator {
    pub entry_id: EntryID,
    pub irow: Option<usize>,
    pub item_uid: ItemUID,
}

impl Clone for ItemLocator {
    fn clone(&self) -> (r: ItemLocator)
        ensures
            r.entry_id@ == self.entry_id@,
            r.irow == self.irow,
            r.item_uid == self.item_uid,
    {
        ItemLocator {
            entry_id: self.entry_id.clone(),
            irow: self.irow,
            item_uid: self.item_uid,
        }
    }
}

/// The scroll-to-item protocol: a fresh request scrolls on the next frame;
/// one without a row is demoted to a retry that resolves once a tile holding
/// the item arrives.
pub struct ScrollState {
    pub scroll_to_item: Option<ItemLocator>,
    pub scroll_to_item_retry: Option<ItemLocator>,
}

impl ScrollState {
    pub fn new() -> (r: ScrollState)
        ensures
            r.scroll_to_item is None,
            r.scroll_to_item_retry is None,
    {
        ScrollState { scroll_to_item: None, scroll_to_item_retry: None }
    }

    /// Accept a new scroll request, clearing any pending retry.
    pub fn request(&mut self, loc: ItemLocator)
        ensures
            final(self).scroll_to_item matches Some(l) && l == loc,
            final(self).scroll_to_item_retry is None,
    {
        self.scroll_to_item = Some(loc);
        self.scroll_to_item_retry = None;
    }

    /// The first frame of a request: take it, return the row to scroll to
    /// (zero when unknown), and demote a rowless request to a retry.
    pub fn first_frame(&mut self) -> (r: Option<usize>)
        ensures
            old(self).scroll_to_item is None ==> r is None && *final(self) == *old(self),
            old(self).scroll_to_item matches Some(l) ==> {
                &&& final(self).scroll_to_item is None
                &&& (l.irow matches Some(row) ==> r == Some(row)
                    && final(self).scroll_to_item_retry == old(self).scroll_to_item_retry)
                &&& (l.irow is None ==> r == Some(0usize)
                    && (final(self).scroll_to_item_retry matches Some(l2) && l2 == l))
            },
    {
        let mut taken: Option<ItemLocator> = None;
        core::mem::swap(&mut taken, &mut self.scroll_to_item);
        match taken {
            Some(loc) => match loc.irow {
                Some(row) => Some(row),
                None => {
                    self.scroll_to_item_retry = Some(loc);
                    Some(0)
                },
            },
            None => None,
        }
    }

    /// A later frame: when the item's row was found in a loaded tile, scroll
    /// there and clear the retry.
    pub fn resolve_retry(&mut self, found_irow: Option<usize>) -> (r: Option<usize>)
        ensures
            old(self).scroll_to_item_retry is None ==> r is None && *final(self) == *old(self),
            old(self).scroll_to_item_retry matches Some(_) ==> {
                &&& (found_irow matches Some(row) ==> r == Some(row)
                    && final(self).scroll_to_item_retry is None)
                &&& (found_irow is None ==> r is None && *final(self) == *old(self))
            },
            final(self).scroll_to_item == old(self).scroll_to_item,
    {
        match &self.scroll_to_item_retry {
            Some(_) => match found_irow {
                Some(row) => {
                    self.scroll_to_item_retry = None;
                    Some(row)
                },
                None => None,
            },
            None => None,
        }
    }
}

} // verus!
