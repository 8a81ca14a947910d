//! The split-phase data source contract and its composable wrappers: a
//! queueing adapter over a synchronous source, and a wrapper counting
//! in-flight requests.

use vstd::prelude::*;

use crate::data::DataSource;
use crate::data::DataSourceDescription;
use crate::data::DataSourceInfo;
use crate::data::EntryID;
use crate::data::EntryIndex;
use crate::data::SlotMetaTile;
use crate::data::SlotTile;
use crate::data::SummaryTile;
use crate::data::TileID;
use crate::data::TileResult;
use crate::map::MapKey;

verus! {

broadcast use vstd::seq::group_seq_axioms;

/// The identity of one tile fetch: which entry, which tile, which fidelity.
/// It accompanies every response so late arrivals can be routed.
#[derive(Debug, Hash)]
pub struct TileRequest {
    pub entry_id: EntryID,
    pub tile_id: TileID,
    pub full: bool,
}

/// The mathematical value of a [`TileRequest`].
pub type TileReqV = (Seq<EntryIndex>, TileID, bool);

impl TileRequest {
    pub open spec fn dview(&self) -> TileReqV {
        (self.entry_id@, self.tile_id, self.full)
    }
}

impl View for TileRequest {
    type V = TileReqV;

    open spec fn view(&self) -> TileReqV {
        self.dview()
    }
}

impl Clone for TileRequest {
    fn clone(&self) -> (r: TileRequest)
        ensures
            r@ == self@,
    {
        TileRequest {
            entry_id: self.entry_id.clone(),
            tile_id: self.tile_id,
            full: self.full,
        }
    }
}

impl PartialEq for TileRequest {
    fn eq(&self, other: &TileRequest) -> (r: bool) {
        self.entry_id.eq(&other.entry_id) && self.tile_id.key_eq(&other.tile_id) && self.full
            == other.full
    }
}

impl Eq for TileRequest {}

impl vstd::std_specs::cmp::PartialEqSpecImpl for TileRequest {
    open spec fn obeys_eq_spec() -> bool {
        true
    }

    open spec fn eq_spec(&self, other: &TileRequest) -> bool {
        self@ == other@
    }
}

impl MapKey for TileRequest {
    fn key_eq(&self, other: &Self) -> (r: bool) {
        self.eq(other)
    }

    fn key_clone(&self) -> (r: Self) {
        self.clone()
    }
}

/// A tile response: the fetched tile or an error, with the request it
/// answers.
pub type TileResponse<T> = (TileResult<T>, TileRequest);

pub type SummaryTileResponse = TileResponse<SummaryTile>;

pub type SlotTileResponse = TileResponse<SlotTile>;

pub type SlotMetaTileResponse = TileResponse<SlotMetaTile>;

/// The split-phase fetch contract: `fetch_*` enqueue work, `get_*` drain
/// whatever has completed, in no particular order. The consumer routes each
/// response by its request.
pub trait DeferredDataSource {
    fn fetch_description(&self) -> DataSourceDescription;

    fn fetch_info(&mut self);

    fn get_infos(&mut self) -> Vec<TileResult<DataSourceInfo>>;

    fn fetch_summary_tile(&mut self, entry_id: &EntryID, tile_id: TileID, full: bool);

    fn get_summary_tiles(&mut self) -> Vec<SummaryTileResponse>;

    fn fetch_slot_tile(&mut self, entry_id: &EntryID, tile_id: TileID, full: bool);

    fn get_slot_tiles(&mut self) -> Vec<SlotTileResponse>;

    fn fetch_slot_meta_tile(&mut self, entry_id: &EntryID, tile_id: TileID, full: bool);

    fn get_slot_meta_tiles(&mut self) -> Vec<SlotMetaTileResponse>;
}

/// Runs a synchronous source at fetch time, on the calling thread, and hands
/// the results out at the next drain.
pub struct DeferredDataSourceWrapper<T: DataSource> {
    data_source: T,
    infos: Vec<TileResult<DataSourceInfo>>,
    summary_tiles: Vec<SummaryTileResponse>,
    slot_tiles: Vec<SlotTileResponse>,
    slot_meta_tiles: Vec<SlotMetaTileResponse>,
}

impl<T: DataSource> DeferredDataSourceWrapper<T> {
    pub closed spec fn spec_infos(&self) -> Seq<TileResult<DataSourceInfo>> {
        self.infos@
    }

    pub closed spec fn spec_summary_tiles(&self) -> Seq<SummaryTileResponse> {
        self.summary_tiles@
    }

    pub closed spec fn spec_slot_tiles(&self) -> Seq<SlotTileResponse> {
        self.slot_tiles@
    }

    pub closed spec fn spec_slot_meta_tiles(&self) -> Seq<SlotMetaTileResponse> {
        self.slot_meta_tiles@
    }

    pub fn new(data_source: T) -> (r: DeferredDataSourceWrapper<T>)
        ensures
            r.spec_infos().len() == 0,
            r.spec_summary_tiles().len() == 0,
            r.spec_slot_tiles().len() == 0,
            r.spec_slot_meta_tiles().len() == 0,
    {
        DeferredDataSourceWrapper {
            data_source,
            infos: Vec::new(),
            summary_tiles: Vec::new(),
            slot_tiles: Vec::new(),
            slot_meta_tiles: Vec::new(),
        }
    }
}

impl<T: DataSource> DeferredDataSource for DeferredDataSourceWrapper<T> {
    fn fetch_description(&self) -> DataSourceDescription {
        self.data_source.fetch_description()
    }

    fn fetch_info(&mut self)
        ensures
            final(self).spec_infos().len() == old(self).spec_infos().len() + 1,
            final(self).spec_infos().subrange(0, old(self).spec_infos().len() as int) == old(
                self,
            ).spec_infos(),
            final(self).spec_summary_tiles() == old(self).spec_summary_tiles(),
            final(self).spec_slot_tiles() == old(self).spec_slot_tiles(),
            final(self).spec_slot_meta_tiles() == old(self).spec_slot_meta_tiles(),
    {
        let info = self.data_source.fetch_info();
        self.infos.push(info);
        proof {
            assert(self.spec_infos().subrange(0, old(self).spec_infos().len() as int) =~= old(
                self,
            ).spec_infos());
        }
    }

    fn get_infos(&mut self) -> (r: Vec<TileResult<DataSourceInfo>>)
        ensures
            r@ == old(self).spec_infos(),
            final(self).spec_infos().len() == 0,
            final(self).spec_summary_tiles() == old(self).spec_summary_tiles(),
            final(self).spec_slot_tiles() == old(self).spec_slot_tiles(),
            final(self).spec_slot_meta_tiles() == old(self).spec_slot_meta_tiles(),
    {
        let mut out: Vec<TileResult<DataSourceInfo>> = Vec::new();
        core::mem::swap(&mut out, &mut self.infos);
        out
    }

    fn fetch_summary_tile(&mut self, entry_id: &EntryID, tile_id: TileID, full: bool)
        ensures
            final(self).spec_summary_tiles().len() == old(self).spec_summary_tiles().len() + 1,
            final(self).spec_summary_tiles().subrange(
                0,
                old(self).spec_summary_tiles().len() as int,
            ) == old(self).spec_summary_tiles(),
            final(self).spec_summary_tiles().last().1@ == (entry_id@, tile_id, full),
            final(self).spec_infos() == old(self).spec_infos(),
            final(self).spec_slot_tiles() == old(self).spec_slot_tiles(),
            final(self).spec_slot_meta_tiles() == old(self).spec_slot_meta_tiles(),
    {
        let result = self.data_source.fetch_summary_tile(entry_id, tile_id, full);
        let req = TileRequest { entry_id: entry_id.clone(), tile_id, full };
        self.summary_tiles.push((result, req));
        proof {
            assert(self.spec_summary_tiles().subrange(
                0,
                old(self).spec_summary_tiles().len() as int,
            ) =~= old(self).spec_summary_tiles());
        }
    }

    fn get_summary_tiles(&mut self) -> (r: Vec<SummaryTileResponse>)
        ensures
            r@ == old(self).spec_summary_tiles(),
            final(self).spec_summary_tiles().len() == 0,
            final(self).spec_infos() == old(self).spec_infos(),
            final(self).spec_slot_tiles() == old(self).spec_slot_tiles(),
            final(self).spec_slot_meta_tiles() == old(self).spec_slot_meta_tiles(),
    {
        let mut out: Vec<SummaryTileResponse> = Vec::new();
        core::mem::swap(&mut out, &mut self.summary_tiles);
        out
    }

    fn fetch_slot_tile(&mut self, entry_id: &EntryID, tile_id: TileID, full: bool)
        ensures
            final(self).spec_slot_tiles().len() == old(self).spec_slot_tiles().len() + 1,
            final(self).spec_slot_tiles().subrange(
                0,
                old(self).spec_slot_tiles().len() as int,
            ) == old(self).spec_slot_tiles(),
            final(self).spec_slot_tiles().last().1@ == (entry_id@, tile_id, full),
            final(self).spec_infos() == old(self).spec_infos(),
            final(self).spec_summary_tiles() == old(self).spec_summary_tiles(),
            final(self).spec_slot_meta_tiles() == old(self).spec_slot_meta_tiles(),
    {
        let result = self.data_source.fetch_slot_tile(entry_id, tile_id, full);
        let req = TileRequest { entry_id: entry_id.clone(), tile_id, full };
        self.slot_tiles.push((result, req));
        proof {
            assert(self.spec_slot_tiles().subrange(
                0,
                old(self).spec_slot_tiles().len() as int,
            ) =~= old(self).spec_slot_tiles());
        }
    }

    fn get_slot_tiles(&mut self) -> (r: Vec<SlotTileResponse>)
        ensures
            r@ == old(self).spec_slot_tiles(),
            final(self).spec_slot_tiles().len() == 0,
            final(self).spec_infos() == old(self).spec_infos(),
            final(self).spec_summary_tiles() == old(self).spec_summary_tiles(),
            final(self).spec_slot_meta_tiles() == old(self).spec_slot_meta_tiles(),
    {
        let mut out: Vec<SlotTileResponse> = Vec::new();
        core::mem::swap(&mut out, &mut self.slot_tiles);
        out
    }

    fn fetch_slot_meta_tile(&mut self, entry_id: &EntryID, tile_id: TileID, full: bool)
        ensures
            final(self).spec_slot_meta_tiles().len() == old(self).spec_slot_meta_tiles().len()
                + 1,
            final(self).spec_slot_meta_tiles().subrange(
                0,
                old(self).spec_slot_meta_tiles().len() as int,
            ) == old(self).spec_slot_meta_tiles(),
            final(self).spec_slot_meta_tiles().last().1@ == (entry_id@, tile_id, full),
            final(self).spec_infos() == old(self).spec_infos(),
            final(self).spec_summary_tiles() == old(self).spec_summary_tiles(),
            final(self).spec_slot_tiles() == old(self).spec_slot_tiles(),
    {
        let result = self.data_source.fetch_slot_meta_tile(entry_id, tile_id, full);
        let req = TileRequest { entry_id: entry_id.clone(), tile_id, full };
        self.slot_meta_tiles.push((result, req));
        proof {
            assert(self.spec_slot_meta_tiles().subrange(
                0,
                old(self).spec_slot_meta_tiles().len() as int,
            ) =~= old(self).spec_slot_meta_tiles());
        }
    }

    fn get_slot_meta_tiles(&mut self) -> (r: Vec<SlotMetaTileResponse>)
        ensures
            r@ == old(self).spec_slot_meta_tiles(),
            final(self).spec_slot_meta_tiles().len() == 0,
            final(self).spec_infos() == old(self).spec_infos(),
            final(self).spec_summary_tiles() == old(self).spec_summary_tiles(),
            final(self).spec_slot_tiles() == old(self).spec_slot_tiles(),
    {
        let mut out: Vec<SlotMetaTileResponse> = Vec::new();
        core::mem::swap(&mut out, &mut self.slot_meta_tiles);
        out
    }
}

/// One step in the life of the request counter: a fetch issued, or a drain
/// that returned some number of responses.
pub enum CounterOp {
    Fetch,
    Drain(nat),
}

/// The counter after a sequence of operations, starting from zero.
pub open spec fn counter_after(ops: Seq<CounterOp>) -> int
    decreases ops.len(),
{
    if ops.len() == 0 {
        0
    } else {
        let prev = counter_after(ops.subrange(0, ops.len() - 1));
        match ops[ops.len() - 1] {
            CounterOp::Fetch => prev + 1,
            CounterOp::Drain(n) => prev - n,
        }
    }
}

/// The number of fetches issued.
pub open spec fn fetches_issued(ops: Seq<CounterOp>) -> int
    decreases ops.len(),
{
    if ops.len() == 0 {
        0
    } else {
        fetches_issued(ops.subrange(0, ops.len() - 1)) + match ops[ops.len() - 1] {
            CounterOp::Fetch => 1int,
            CounterOp::Drain(_) => 0int,
        }
    }
}

/// The number of responses drained.
pub open spec fn responses_drained(ops: Seq<CounterOp>) -> int
    decreases ops.len(),
{
    if ops.len() == 0 {
        0
    } else {
        responses_drained(ops.subrange(0, ops.len() - 1)) + match ops[ops.len() - 1] {
            CounterOp::Fetch => 0int,
            CounterOp::Drain(n) => n as int,
        }
    }
}

/// A sequence is valid when no drain returns more than was outstanding.
pub open spec fn ops_valid(ops: Seq<CounterOp>) -> bool
    decreases ops.len(),
{
    if ops.len() == 0 {
        true
    } else {
        &&& ops_valid(ops.subrange(0, ops.len() - 1))
        &&& match ops[ops.len() - 1] {
            CounterOp::Fetch => true,
            CounterOp::Drain(n) => n <= counter_after(ops.subrange(0, ops.len() - 1)),
        }
    }
}

/// The counter law: through any valid sequence of fetches and drains, the
/// outstanding count equals fetches issued minus responses drained, and it
/// is never negative. The wrapper's own methods realise these steps: each
/// `fetch_*` ensures one `Fetch` transition and each `get_*` one `Drain` of
/// the result's length (saturating only at the ends of the counter's range,
/// which a source that answers at most what was asked never reaches), and
/// `start_request`/`finish_request` carry the exact unsaturated forms.
pub proof fn lemma_counter_balance(ops: Seq<CounterOp>)
    requires
        ops_valid(ops),
    ensures
        counter_after(ops) == fetches_issued(ops) - responses_drained(ops),
        counter_after(ops) >= 0,
    decreases ops.len(),
{
    if ops.len() > 0 {
        lemma_counter_balance(ops.subrange(0, ops.len() - 1));
    }
}

/// Counts requests in flight: each `fetch_*` increments, each drained
/// response decrements. The UI keeps repainting while the count is positive.
pub struct CountingDeferredDataSource<T: DeferredDataSource> {
    data_source: T,
    outstanding_requests: u64,
}

impl<T: DeferredDataSource> CountingDeferredDataSource<T> {
    pub closed spec fn spec_outstanding(&self) -> u64 {
        self.outstanding_requests
    }

    pub fn new(data_source: T) -> (r: CountingDeferredDataSource<T>)
        ensures
            r.spec_outstanding() == 0,
    {
        CountingDeferredDataSource { data_source, outstanding_requests: 0 }
    }

    /// How many issued requests have not been drained yet.
    pub fn outstanding_requests(&self) -> (r: u64)
        ensures
            r == self.spec_outstanding(),
    {
        self.outstanding_requests
    }

    /// Note one request issued.
    pub fn start_request(&mut self)
        requires
            old(self).spec_outstanding() < u64::MAX,
        ensures
            final(self).spec_outstanding() == old(self).spec_outstanding() + 1,
    {
        self.outstanding_requests = self.outstanding_requests + 1;
    }

    /// Note a batch of responses drained and pass it through. Draining more
    /// than is outstanding would mean counting went wrong; that input is
    /// excluded.
    pub fn finish_request<E>(&mut self, result: Vec<E>) -> (r: Vec<E>)
        requires
            result@.len() <= old(self).spec_outstanding(),
        ensures
            final(self).spec_outstanding() == old(self).spec_outstanding() - result@.len(),
            r == result,
    {
        let count = result.len() as u64;
        self.outstanding_requests = self.outstanding_requests - count;
        result
    }

    /// Note `n` responses drained, whatever `n` is: the counter loses `n`,
    /// saturating at zero. An inner source can never make the count
    /// negative.
    fn note_drained(&mut self, n: usize)
        ensures
            final(self).spec_outstanding() == if n <= old(self).spec_outstanding() {
                old(self).spec_outstanding() - n as int
            } else {
                0int
            },
    {
        let n64 = n as u64;
        if n64 <= self.outstanding_requests {
            self.outstanding_requests = self.outstanding_requests - n64;
        } else {
            self.outstanding_requests = 0;
        }
    }

    /// Note one request issued, saturating at the counter's maximum.
    fn note_started(&mut self)
        ensures
            final(self).spec_outstanding() == if old(self).spec_outstanding() < u64::MAX {
                (old(self).spec_outstanding() + 1) as u64
            } else {
                u64::MAX
            },
    {
        if self.outstanding_requests < u64::MAX {
            self.outstanding_requests = self.outstanding_requests + 1;
        }
    }
}

/// The counter after one more issued request: one higher, saturating at the
/// counter's maximum.
pub open spec fn counted_up(before: u64, after: u64) -> bool {
    after == if before < u64::MAX {
        before + 1
    } else {
        u64::MAX as int
    }
}

/// The counter after draining `n` responses: `n` lower, saturating at zero.
/// A well-behaved inner source never delivers more than was issued, so the
/// saturation leg is never taken; it keeps the counter non-negative whatever
/// the inner source does.
pub open spec fn counted_down(before: u64, after: u64, n: nat) -> bool {
    after == if n <= before {
        before - n
    } else {
        0int
    }
}

impl<T: DeferredDataSource> DeferredDataSource for CountingDeferredDataSource<T> {
    fn fetch_description(&self) -> DataSourceDescription {
        self.data_source.fetch_description()
    }

    fn fetch_info(&mut self)
        ensures
            counted_up(old(self).spec_outstanding(), final(self).spec_outstanding()),
    {
        self.note_started();
        self.data_source.fetch_info()
    }

    fn get_infos(&mut self) -> (r: Vec<TileResult<DataSourceInfo>>)
        ensures
            counted_down(
                old(self).spec_outstanding(),
                final(self).spec_outstanding(),
                r@.len(),
            ),
    {
        let result = self.data_source.get_infos();
        self.note_drained(result.len());
        result
    }

    fn fetch_summary_tile(&mut self, entry_id: &EntryID, tile_id: TileID, full: bool)
        ensures
            counted_up(old(self).spec_outstanding(), final(self).spec_outstanding()),
    {
        self.note_started();
        self.data_source.fetch_summary_tile(entry_id, tile_id, full)
    }

    fn get_summary_tiles(&mut self) -> (r: Vec<SummaryTileResponse>)
        ensures
            counted_down(
                old(self).spec_outstanding(),
                final(self).spec_outstanding(),
                r@.len(),
            ),
    {
        let result = self.data_source.get_summary_tiles();
        self.note_drained(result.len());
        result
    }

    fn fetch_slot_tile(&mut self, entry_id: &EntryID, tile_id: TileID, full: bool)
        ensures
            counted_up(old(self).spec_outstanding(), final(self).spec_outstanding()),
    {
        self.note_started();
        self.data_source.fetch_slot_tile(entry_id, tile_id, full)
    }

    fn get_slot_tiles(&mut self) -> (r: Vec<SlotTileResponse>)
        ensures
            counted_down(
                old(self).spec_outstanding(),
                final(self).spec_outstanding(),
                r@.len(),
            ),
    {
        let result = self.data_source.get_slot_tiles();
        self.note_drained(result.len());
        result
    }

    fn fetch_slot_meta_tile(&mut self, entry_id: &EntryID, tile_id: TileID, full: bool)
        ensures
            counted_up(old(self).spec_outstanding(), final(self).spec_outstanding()),
    {
        self.note_started();
        self.data_source.fetch_slot_meta_tile(entry_id, tile_id, full)
    }

    fn get_slot_meta_tiles(&mut self) -> (r: Vec<SlotMetaTileResponse>)
        ensures
            counted_down(
                old(self).spec_outstanding(),
                final(self).spec_outstanding(),
                r@.len(),
            ),
    {
        let result = self.data_source.get_slot_meta_tiles();
        self.note_drained(result.len());
        result
    }
}

impl DeferredDataSource for Box<dyn DeferredDataSource> {
    fn fetch_description(&self) -> DataSourceDescription {
        (**self).fetch_description()
    }

    fn fetch_info(&mut self) {
        (**self).fetch_info()
    }

    fn get_infos(&mut self) -> Vec<TileResult<DataSourceInfo>> {
        (**self).get_infos()
    }

    fn fetch_summary_tile(&mut self, entry_id: &EntryID, tile_id: TileID, full: bool) {
        (**self).fetch_summary_tile(entry_id, tile_id, full)
    }

    fn get_summary_tiles(&mut self) -> Vec<SummaryTileResponse> {
        (**self).get_summary_tiles()
    }

    fn fetch_slot_tile(&mut self, entry_id: &EntryID, tile_id: TileID, full: bool) {
        (**self).fetch_slot_tile(entry_id, tile_id, full)
    }

    fn get_slot_tiles(&mut self) -> Vec<SlotTileResponse> {
        (**self).get_slot_tiles()
    }

    fn fetch_slot_meta_tile(&mut self, entry_id: &EntryID, tile_id: TileID, full: bool) {
        (**self).fetch_slot_meta_tile(entry_id, tile_id, full)
    }

    fn get_slot_meta_tiles(&mut self) -> Vec<SlotMetaTileResponse> {
        (**self).get_slot_meta_tiles()
    }
}

} // verus!
