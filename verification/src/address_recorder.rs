//! The address trace store: one bin of recorded addresses per checkpoint
//! ("frame time"), written through an exclusive write session and queried by
//! half-open coordinate ranges without copying the recorded data.
//!
//! The write-session protocol (one checkpoint open at a time, marks only
//! after an address, coordinates matching the open checkpoint) is stated as
//! `requires` clauses and enforced statically: every verified caller is
//! proved to obey it, and no run-time checks are compiled in.

use vstd::prelude::*;

use crate::shared_structs::{TimeRange, TimeStamp};

verus! {

/// Which endpoint of a queried range could not be resolved to a mark.
#[derive(Debug, Clone, Copy, PartialEq, Eq, Structural)]
pub enum RangeEndpoint {
    Start,
    End,
}

/// The ways a range query can fail.
#[derive(Debug, Clone, Copy, PartialEq, Eq, Structural)]
pub enum RangeQueryError {
    /// The named endpoint's coordinate was never recorded as a mark.
    InvalidRangeEndpoint(RangeEndpoint),
    /// The end of the range comes before its start.
    RangeOutOfOrder,
    /// The walk from start to end ran off the recorded trace; the end lies in
    /// a checkpoint whose trace was never captured.
    TraceNotCaptured,
}

/// One checkpoint's worth of trace: the raw addresses in recording order, and
/// the marks that name positions inside them. The first mark of a written bin
/// is always the checkpoint's sentinel at position 0.
#[derive(Clone)]
struct FtBin {
    addresses: Vec<usize>,
    indexes: Vec<(TimeStamp, usize)>,
}

/// The address trace store. It owns a fixed-length sequence of checkpoint
/// bins and a write head; at most one checkpoint is open for writing at a
/// time.
pub struct AddressRecorder {
    records: Vec<FtBin>,
    write_head: usize,
    is_writing_ftbin: bool,
}

impl AddressRecorder {
    /// Number of checkpoint bins the store was sized for.
    pub closed spec fn num_bins(self) -> int {
        self.records@.len() as int
    }

    /// The addresses recorded for checkpoint `ft`, in recording order.
    pub closed spec fn bin_addrs(self, ft: int) -> Seq<usize> {
        self.records@[ft].addresses@
    }

    /// The marks recorded for checkpoint `ft`: coordinate / position pairs,
    /// in recording order.
    pub closed spec fn bin_marks(self, ft: int) -> Seq<(TimeStamp, usize)> {
        self.records@[ft].indexes@
    }

    /// Whether a write session is open.
    pub closed spec fn writing(self) -> bool {
        self.is_writing_ftbin
    }

    /// The checkpoint currently (or last) open for writing.
    pub closed spec fn write_head(self) -> int {
        self.write_head as int
    }

    /// The sentinel coordinate of checkpoint `ft`.
    pub open spec fn sentinel(ft: int) -> TimeStamp {
        TimeStamp { frame_time: ft as usize, addr: None, instance_of_addr: None }
    }

    /// Well-formedness of one bin `ft`: marks name positions that exist and
    /// grow monotonically as writing proceeds, all marks carry the bin's own
    /// checkpoint id, the first mark is the sentinel at position 0, and a
    /// bin with addresses also has its marks.
    pub open spec fn bin_wf(self, ft: int) -> bool {
        &&& (forall|i: int|
            1 <= i < self.bin_marks(ft).len() ==> (#[trigger] self.bin_marks(ft)[i]).1
                < self.bin_addrs(ft).len())
        &&& (forall|i: int|
            0 <= i < self.bin_marks(ft).len() ==> (#[trigger] self.bin_marks(ft)[i]).0.frame_time
                == ft)
        &&& (forall|i: int, j: int|
            0 <= i <= j < self.bin_marks(ft).len() ==> (#[trigger] self.bin_marks(ft)[i]).1 <= (
            #[trigger] self.bin_marks(ft)[j]).1)
        &&& (self.bin_marks(ft).len() > 0 ==> self.bin_marks(ft)[0] == (Self::sentinel(ft), 0usize))
        &&& (self.bin_addrs(ft).len() > 0 ==> self.bin_marks(ft).len() > 0)
    }

    /// Well-formedness of the whole store.
    pub open spec fn wf(self) -> bool {
        &&& (forall|ft: int| 0 <= ft < self.num_bins() ==> self.bin_wf(ft))
        &&& (self.writing() ==> 0 <= self.write_head() < self.num_bins())
        &&& (self.writing() ==> self.bin_marks(self.write_head()).len() > 0)
    }

    /// Create a store able to hold checkpoints `0 .. max_frame_time + 2`.
    ///
    /// The two spare bins accommodate 1-based, inclusive checkpoint
    /// numbering without any per-insert bounds arithmetic.
    pub fn new(max_frame_time: usize) -> (r: Self)
        requires
            max_frame_time + 2 <= usize::MAX,
        ensures
            r.wf(),
            !r.writing(),
            r.num_bins() == max_frame_time + 2,
            forall|ft: int|
                0 <= ft < r.num_bins() ==> r.bin_addrs(ft).len() == 0 && r.bin_marks(ft).len()
                    == 0,
    {
        let n = max_frame_time + 2;
        let mut records: Vec<FtBin> = Vec::new();
        let mut i: usize = 0;
        while i < n
            invariant
                i <= n,
                records@.len() == i,
                forall|ft: int|
                    0 <= ft < i ==> (#[trigger] records@[ft]).addresses@.len() == 0
                        && records@[ft].indexes@.len() == 0,
            decreases n - i,
        {
            records.push(FtBin { addresses: Vec::new(), indexes: Vec::new() });
            i = i + 1;
        }
        Self { write_head: 0, is_writing_ftbin: false, records }
    }

    /// Open a write session on checkpoint `frame_time`, discarding whatever
    /// that bin held before and planting the sentinel mark at position 0.
    ///
    /// Re-running this on a checkpoint is the idempotent reset: all prior
    /// addresses and marks of that checkpoint are gone afterwards.
    pub fn reset_ft_for_writing(&mut self, frame_time: usize)
        requires
            old(self).wf(),
            !old(self).writing(),
            frame_time < old(self).num_bins(),
        ensures
            final(self).wf(),
            final(self).writing(),
            final(self).write_head() == frame_time,
            final(self).num_bins() == old(self).num_bins(),
            final(self).bin_addrs(frame_time as int).len() == 0,
            final(self).bin_marks(frame_time as int) =~= seq![
                (Self::sentinel(frame_time as int), 0usize),
            ],
            forall|ft: int|
                0 <= ft < old(self).num_bins() && ft != frame_time ==> final(self).bin_addrs(ft) == old(self).bin_addrs(ft)
                    && final(self).bin_marks(ft) == old(self).bin_marks(ft),
    {
        let bin = &mut self.records[frame_time];
        bin.indexes.clear();
        bin.addresses.clear();
        self.write_head = frame_time;
        self.records[frame_time].indexes.push((TimeStamp::new_at_ft(frame_time), 0));
        self.is_writing_ftbin = true;
        proof {
            assert forall|ft: int| 0 <= ft < self.num_bins() implies self.bin_wf(ft) by {
                assert(old(self).bin_wf(ft));
            }
        }
    }

    /// Append one visited address to the open checkpoint's trace.
    pub fn insert_address(&mut self, address: usize)
        requires
            old(self).wf(),
            old(self).writing(),
        ensures
            final(self).wf(),
            final(self).writing(),
            final(self).write_head() == old(self).write_head(),
            final(self).num_bins() == old(self).num_bins(),
            final(self).bin_addrs(old(self).write_head()) == old(self).bin_addrs(
                old(self).write_head(),
            ).push(address),
            final(self).bin_marks(old(self).write_head()) == old(self).bin_marks(
                old(self).write_head(),
            ),
            forall|ft: int|
                0 <= ft < old(self).num_bins() && ft != old(self).write_head() ==> final(self).bin_addrs(ft) == old(self).bin_addrs(ft)
                    && final(self).bin_marks(ft) == old(self).bin_marks(ft),
    {
        self.records[self.write_head].addresses.push(address);
        proof {
            assert forall|ft: int| 0 <= ft < self.num_bins() implies self.bin_wf(ft) by {
                assert(old(self).bin_wf(ft));
            }
        }
    }

    /// Record a named mark for the most recently inserted address of the open
    /// checkpoint. At least one address must have been recorded in the
    /// session, and the coordinate must belong to the open checkpoint.
    pub fn insert_timestamp(&mut self, stamp: TimeStamp)
        requires
            old(self).wf(),
            old(self).writing(),
            stamp.frame_time == old(self).write_head(),
            old(self).bin_addrs(old(self).write_head()).len() > 0,
        ensures
            final(self).wf(),
            final(self).writing(),
            final(self).write_head() == old(self).write_head(),
            final(self).num_bins() == old(self).num_bins(),
            final(self).bin_addrs(old(self).write_head()) == old(self).bin_addrs(
                old(self).write_head(),
            ),
            final(self).bin_marks(old(self).write_head()) == old(self).bin_marks(
                old(self).write_head(),
            ).push((stamp, (old(self).bin_addrs(old(self).write_head()).len() - 1) as usize)),
            forall|ft: int|
                0 <= ft < old(self).num_bins() && ft != old(self).write_head() ==> final(self).bin_addrs(ft) == old(self).bin_addrs(ft)
                    && final(self).bin_marks(ft) == old(self).bin_marks(ft),
    {
        let current_loc = self.records[self.write_head].addresses.len() - 1;
        self.records[self.write_head].indexes.push((stamp, current_loc));
        proof {
            assert forall|ft: int| 0 <= ft < self.num_bins() implies self.bin_wf(ft) by {
                assert(old(self).bin_wf(ft));
            }
        }
    }

    /// Close the open write session. The bin written in it is immutable until
    /// it is explicitly reset for rewriting.
    pub fn finished_writing_ft(&mut self)
        requires
            old(self).wf(),
            old(self).writing(),
        ensures
            final(self).wf(),
            !final(self).writing(),
            final(self).num_bins() == old(self).num_bins(),
            forall|ft: int|
                0 <= ft < old(self).num_bins() ==> final(self).bin_addrs(ft) == old(self).bin_addrs(
                    ft,
                ) && final(self).bin_marks(ft) == old(self).bin_marks(ft),
    {
        self.is_writing_ftbin = false;
        proof {
            assert forall|ft: int| 0 <= ft < self.num_bins() implies self.bin_wf(ft) by {
                assert(old(self).bin_wf(ft));
            }
        }
    }

    /// Index of the first mark in `marks`, at or after `i`, whose coordinate
    /// equals `ts`.
    pub open spec fn find_mark_from(
        marks: Seq<(TimeStamp, usize)>,
        ts: TimeStamp,
        i: int,
    ) -> Option<int>
        decreases marks.len() - i,
    {
        if i < 0 || i >= marks.len() {
            None
        } else if marks[i].0 == ts {
            Some(i)
        } else {
            Self::find_mark_from(marks, ts, i + 1)
        }
    }

    /// Index of the first mark in `marks` whose coordinate equals `ts`.
    pub open spec fn find_mark(marks: Seq<(TimeStamp, usize)>, ts: TimeStamp) -> Option<int> {
        Self::find_mark_from(marks, ts, 0)
    }

    /// The recorded position a coordinate resolves to, if it was ever
    /// recorded as a mark in its checkpoint's bin.
    pub open spec fn mark_pos(self, ts: TimeStamp) -> Option<int> {
        if 0 <= ts.frame_time < self.num_bins() {
            match Self::find_mark(self.bin_marks(ts.frame_time as int), ts) {
                Some(j) => Some(self.bin_marks(ts.frame_time as int)[j].1 as int),
                None => None,
            }
        } else {
            None
        }
    }

    /// The addresses a well-formed walk yields: the tail of bin `ft` from
    /// `pos`, every full bin strictly between `ft` and `e_ft` (empty bins
    /// contribute nothing), and the head of bin `e_ft` up to but excluding
    /// `e_pos`.
    pub open spec fn walk(self, ft: int, pos: int, e_ft: int, e_pos: int) -> Seq<usize>
        decreases e_ft - ft,
    {
        if ft >= e_ft {
            self.bin_addrs(e_ft).subrange(pos, e_pos)
        } else {
            self.bin_addrs(ft).subrange(pos, self.bin_addrs(ft).len() as int) + self.walk(
                ft + 1,
                0,
                e_ft,
                e_pos,
            )
        }
    }

    /// A found mark index is a real index, and its coordinate matches.
    pub proof fn lemma_find_mark_props(marks: Seq<(TimeStamp, usize)>, ts: TimeStamp, i: int)
        requires
            0 <= i,
        ensures
            match Self::find_mark_from(marks, ts, i) {
                Some(j) => i <= j < marks.len() && marks[j].0 == ts,
                None => true,
            },
        decreases marks.len() - i,
    {
        if i < marks.len() && marks[i].0 != ts {
            Self::lemma_find_mark_props(marks, ts, i + 1);
        }
    }

    proof fn lemma_find_mark_from_found(
        marks: Seq<(TimeStamp, usize)>,
        ts: TimeStamp,
        i: int,
        j: int,
    )
        requires
            0 <= i <= j < marks.len(),
            marks[j].0 == ts,
            forall|k: int| i <= k < j ==> (#[trigger] marks[k]).0 != ts,
        ensures
            Self::find_mark_from(marks, ts, i) == Some(j),
        decreases j - i,
    {
        if i < j {
            Self::lemma_find_mark_from_found(marks, ts, i + 1, j);
        }
    }

    proof fn lemma_find_mark_from_none(marks: Seq<(TimeStamp, usize)>, ts: TimeStamp, i: int)
        requires
            0 <= i,
            forall|k: int| i <= k < marks.len() ==> (#[trigger] marks[k]).0 != ts,
        ensures
            Self::find_mark_from(marks, ts, i) is None,
        decreases marks.len() - i,
    {
        if i < marks.len() {
            Self::lemma_find_mark_from_none(marks, ts, i + 1);
        }
    }

    /// Empty bins contribute nothing to a walk: skipping over a run of them
    /// does not change the yielded addresses.
    proof fn lemma_walk_skip_empty(self, a: int, b: int, e_ft: int, e_pos: int)
        requires
            a <= b <= e_ft,
            forall|m: int| a <= m < b ==> (#[trigger] self.bin_addrs(m)).len() == 0,
        ensures
            self.walk(a, 0, e_ft, e_pos) == self.walk(b, 0, e_ft, e_pos),
        decreases b - a,
    {
        if a < b {
            assert(self.bin_addrs(a).subrange(0, self.bin_addrs(a).len() as int) =~= Seq::<
                usize,
            >::empty());
            self.lemma_walk_skip_empty(a + 1, b, e_ft, e_pos);
            assert(Seq::<usize>::empty() + self.walk(a + 1, 0, e_ft, e_pos) =~= self.walk(
                a + 1,
                0,
                e_ft,
                e_pos,
            ));
        }
    }

    /// Resolve the first mark of bin `ft` whose coordinate equals `ts`,
    /// returning its index among the bin's marks.
    fn find_mark_index(&self, ft: usize, ts: &TimeStamp) -> (r: Option<usize>)
        requires
            self.wf(),
            ft < self.num_bins(),
        ensures
            match r {
                Some(j) => Self::find_mark(self.bin_marks(ft as int), *ts) == Some(j as int) && j
                    < self.bin_marks(ft as int).len(),
                None => Self::find_mark(self.bin_marks(ft as int), *ts) is None,
            },
    {
        let marks = &self.records[ft].indexes;
        let n = marks.len();
        let mut i: usize = 0;
        while i < n
            invariant
                self.wf(),
                ft < self.num_bins(),
                n == self.bin_marks(ft as int).len(),
                i <= n,
                marks@ == self.bin_marks(ft as int),
                forall|k: int| 0 <= k < i ==> (#[trigger] marks@[k]).0 != *ts,
            decreases n - i,
        {
            if marks[i].0.same_coordinate(ts) {
                proof {
                    Self::lemma_find_mark_from_found(marks@, *ts, 0, i as int);
                }
                return Some(i);
            }
            i = i + 1;
        }
        proof {
            Self::lemma_find_mark_from_none(marks@, *ts, 0);
        }
        None
    }

    /// What a successful query of `range` must yield, phrased over the
    /// resolved mark positions.
    pub open spec fn range_result(self, range: TimeRange) -> Seq<usize> {
        let s = range.start;
        let e = range.end;
        self.walk(
            s.frame_time as int,
            self.mark_pos(s).unwrap(),
            e.frame_time as int,
            self.mark_pos(e).unwrap(),
        )
    }

    /// How a query of `range` must end: the error it reports, or `None` for
    /// success. Start resolution is checked first, then end resolution, then
    /// range order; a walk towards an end checkpoint with no captured trace
    /// (reachable only through an empty-checkpoint sentinel end) fails last.
    pub open spec fn range_verdict(self, range: TimeRange) -> Option<RangeQueryError> {
        let s = range.start;
        let e = range.end;
        if self.mark_pos(s) is None {
            Some(RangeQueryError::InvalidRangeEndpoint(RangeEndpoint::Start))
        } else if self.mark_pos(e) is None {
            Some(RangeQueryError::InvalidRangeEndpoint(RangeEndpoint::End))
        } else if s.frame_time == e.frame_time && self.mark_pos(s).unwrap() > self.mark_pos(
            e,
        ).unwrap() {
            Some(RangeQueryError::RangeOutOfOrder)
        } else if s.frame_time > e.frame_time {
            Some(RangeQueryError::RangeOutOfOrder)
        } else if s.frame_time != e.frame_time && self.bin_addrs(e.frame_time as int).len() == 0 {
            Some(RangeQueryError::TraceNotCaptured)
        } else {
            None
        }
    }

    /// Select the addresses recorded between the positions named by
    /// `range.start` (inclusive) and `range.end` (exclusive), walking across
    /// checkpoints in order and skipping those with no captured trace.
    ///
    /// The result is a borrowed, zero-copy view; nothing of the underlying
    /// trace is duplicated.
    pub fn get_addresses_in<'a>(&'a self, range: &TimeRange) -> (r: Result<
        AddrIter<'a>,
        RangeQueryError,
    >)
        requires
            self.wf(),
        ensures
            match self.range_verdict(*range) {
                Some(err) => r matches Err(e) && e == err,
                None => r matches Ok(it) && it.wf() && it.remaining() == self.range_result(*range),
            },
    {
        let start = &range.start;
        let end = &range.end;
        if start.frame_time >= self.records.len() {
            return Err(RangeQueryError::InvalidRangeEndpoint(RangeEndpoint::Start));
        }
        let start_index_entry = match self.find_mark_index(start.frame_time, start) {
            Some(j) => j,
            None => {
                return Err(RangeQueryError::InvalidRangeEndpoint(RangeEndpoint::Start));
            },
        };
        if end.frame_time >= self.records.len() {
            return Err(RangeQueryError::InvalidRangeEndpoint(RangeEndpoint::End));
        }
        let end_index_entry = match self.find_mark_index(end.frame_time, end) {
            Some(j) => j,
            None => {
                return Err(RangeQueryError::InvalidRangeEndpoint(RangeEndpoint::End));
            },
        };
        let s_pos = self.records[start.frame_time].indexes[start_index_entry].1;
        let e_pos = self.records[end.frame_time].indexes[end_index_entry].1;
        proof {
            assert(self.bin_wf(start.frame_time as int));
            assert(self.bin_wf(end.frame_time as int));
            assert(self.mark_pos(range.start) == Some(s_pos as int));
            assert(self.mark_pos(range.end) == Some(e_pos as int));
        }
        if start.frame_time == end.frame_time {
            if s_pos > e_pos {
                return Err(RangeQueryError::RangeOutOfOrder);
            }
        } else if start.frame_time > end.frame_time {
            return Err(RangeQueryError::RangeOutOfOrder);
        }
        if start.frame_time != end.frame_time && self.records[end.frame_time].addresses.len()
            == 0 {
            return Err(RangeQueryError::TraceNotCaptured);
        }
        let e_ft = end.frame_time;
        let mut chunks: Vec<&'a [usize]> = Vec::new();
        let mut cur_ft = start.frame_time;
        let mut cur_pos = s_pos;
        loop
            invariant_except_break
                flatten_slices_from(chunks@, 0) + self.walk(
                    cur_ft as int,
                    cur_pos as int,
                    e_ft as int,
                    e_pos as int,
                ) == self.walk(
                    start.frame_time as int,
                    s_pos as int,
                    e_ft as int,
                    e_pos as int,
                ),
            invariant
                self.wf(),
                e_ft < self.num_bins(),
                cur_ft <= e_ft,
                cur_pos <= self.bin_addrs(cur_ft as int).len(),
                e_pos <= self.bin_addrs(e_ft as int).len(),
                cur_ft == e_ft ==> cur_pos <= e_pos,
                cur_ft < e_ft ==> self.bin_addrs(e_ft as int).len() > 0,
            ensures
                flatten_slices_from(chunks@, 0) == self.walk(
                    start.frame_time as int,
                    s_pos as int,
                    e_ft as int,
                    e_pos as int,
                ),
            decreases e_ft - cur_ft,
        {
            let current_bin = &self.records[cur_ft];
            if cur_ft == e_ft {
                let ghost pre_chunks = chunks@;
                let sl = vstd::slice::slice_subrange(current_bin.addresses.as_slice(), cur_pos, e_pos);
                chunks.push(sl);
                proof {
                    lemma_flatten_slices_push(pre_chunks, sl, 0);
                    assert(flatten_slices_from(chunks@, 0) =~= self.walk(
                        start.frame_time as int,
                        s_pos as int,
                        e_ft as int,
                        e_pos as int,
                    ));
                }
                break ;
            }
            let ghost pre_chunks = chunks@;
            let bin_len = current_bin.addresses.len();
            let sl = vstd::slice::slice_subrange(current_bin.addresses.as_slice(), cur_pos, bin_len);
            chunks.push(sl);
            proof {
                lemma_flatten_slices_push(pre_chunks, sl, 0);
                assert((flatten_slices_from(pre_chunks, 0) + sl@) + self.walk(
                    cur_ft + 1,
                    0,
                    e_ft as int,
                    e_pos as int,
                ) =~= flatten_slices_from(pre_chunks, 0) + (sl@ + self.walk(
                    cur_ft + 1,
                    0,
                    e_ft as int,
                    e_pos as int,
                )));
            }
            let mut next_entered_frame_time = cur_ft + 1;
            while self.records[next_entered_frame_time].addresses.len() == 0
                invariant
                    self.wf(),
                    e_ft < self.num_bins(),
                    cur_ft < next_entered_frame_time <= e_ft,
                    self.bin_addrs(e_ft as int).len() > 0,
                    forall|m: int|
                        cur_ft + 1 <= m < next_entered_frame_time ==> (#[trigger] self.bin_addrs(
                            m,
                        )).len() == 0,
                decreases e_ft - next_entered_frame_time,
            {
                next_entered_frame_time = next_entered_frame_time + 1;
            }
            proof {
                assert(self.bin_wf(next_entered_frame_time as int));
                self.lemma_walk_skip_empty(
                    cur_ft + 1,
                    next_entered_frame_time as int,
                    e_ft as int,
                    e_pos as int,
                );
            }
            let entry_pos = self.records[next_entered_frame_time].indexes[0].1;
            cur_ft = next_entered_frame_time;
            cur_pos = entry_pos;
        }
        Ok(AddrIter { chunks, index: 0, index_index: 0 })
    }

    /// The coordinates of the marks in `marks` whose recorded position holds
    /// `addr` in `addrs`, in recording order.
    pub open spec fn occ_in_marks(
        marks: Seq<(TimeStamp, usize)>,
        addrs: Seq<usize>,
        addr: usize,
    ) -> Seq<TimeStamp>
        decreases marks.len(),
    {
        if marks.len() == 0 {
            Seq::empty()
        } else {
            let rest = Self::occ_in_marks(marks.drop_last(), addrs, addr);
            let m = marks.last();
            if m.1 < addrs.len() && addrs[m.1 as int] == addr {
                rest.push(m.0)
            } else {
                rest
            }
        }
    }

    /// All occurrences of `addr` among the marks of bins `0 .. ft`.
    pub open spec fn occurrences_up_to(self, ft: int, addr: usize) -> Seq<TimeStamp>
        decreases ft,
    {
        if ft <= 0 {
            Seq::empty()
        } else {
            self.occurrences_up_to(ft - 1, addr) + Self::occ_in_marks(
                self.bin_marks(ft - 1),
                self.bin_addrs(ft - 1),
                addr,
            )
        }
    }

    /// Every recorded mark, across all checkpoints, whose position holds
    /// `addr` in the trace.
    pub open spec fn occurrences(self, addr: usize) -> Seq<TimeStamp> {
        self.occurrences_up_to(self.num_bins(), addr)
    }

    /// Collect the coordinate of every mark, across all checkpoints, whose
    /// recorded position corresponds to `addr` actually appearing in the
    /// trace at that position. Used to jump replay to a specific historical
    /// visit of an address.
    pub fn get_addr_occurrences(&self, addr: usize) -> (r: Vec<TimeStamp>)
        requires
            self.wf(),
        ensures
            r@ == self.occurrences(addr),
    {
        let mut out: Vec<TimeStamp> = Vec::new();
        let n = self.records.len();
        let mut ft: usize = 0;
        while ft < n
            invariant
                self.wf(),
                n == self.num_bins(),
                ft <= n,
                out@ == self.occurrences_up_to(ft as int, addr),
            decreases n - ft,
        {
            let bin = &self.records[ft];
            let m = bin.indexes.len();
            let mut i: usize = 0;
            while i < m
                invariant
                    self.wf(),
                    ft < n == self.num_bins(),
                    m == self.bin_marks(ft as int).len(),
                    i <= m,
                    bin.indexes@ == self.bin_marks(ft as int),
                    bin.addresses@ == self.bin_addrs(ft as int),
                    out@ == self.occurrences_up_to(ft as int, addr) + Self::occ_in_marks(
                        self.bin_marks(ft as int).take(i as int),
                        self.bin_addrs(ft as int),
                        addr,
                    ),
                decreases m - i,
            {
                let ghost marks = self.bin_marks(ft as int);
                let (stamp, pos) = bin.indexes[i];
                proof {
                    assert(marks.take(i + 1).drop_last() =~= marks.take(i as int));
                    assert(marks.take(i + 1).last() == marks[i as int]);
                }
                if pos < bin.addresses.len() && bin.addresses[pos] == addr {
                    out.push(stamp);
                }
                i = i + 1;
            }
            proof {
                assert(self.bin_marks(ft as int).take(m as int) =~= self.bin_marks(ft as int));
            }
            ft = ft + 1;
        }
        out
    }

    /// Sum of the trace lengths of bins `a .. b`.
    pub open spec fn bin_len_sum(self, a: int, b: int) -> int
        decreases b - a,
    {
        if a >= b {
            0
        } else {
            self.bin_addrs(a).len() + self.bin_len_sum(a + 1, b)
        }
    }

    /// A walk yields exactly the addresses recorded between its two
    /// positions in capture order: its length is the whole trace of the
    /// checkpoints it spans, less the part before the start position and the
    /// part from the end position on.
    pub proof fn lemma_walk_len(self, s_ft: int, s_pos: int, e_ft: int, e_pos: int)
        requires
            s_ft <= e_ft,
            0 <= s_pos <= self.bin_addrs(s_ft).len(),
            0 <= e_pos <= self.bin_addrs(e_ft).len(),
            s_ft == e_ft ==> s_pos <= e_pos,
        ensures
            self.walk(s_ft, s_pos, e_ft, e_pos).len() == self.bin_len_sum(s_ft, e_ft) - s_pos
                + e_pos,
        decreases e_ft - s_ft,
    {
        if s_ft < e_ft {
            self.lemma_walk_len(s_ft + 1, 0, e_ft, e_pos);
        }
    }

    /// For every range the query accepts, the yielded sequence holds exactly
    /// the addresses recorded between the two resolved positions in capture
    /// order: the whole trace of the checkpoints the range spans, less what
    /// precedes the start position and what follows from the end position.
    pub proof fn lemma_range_result_len(self, range: TimeRange)
        requires
            self.wf(),
            self.range_verdict(range) is None,
        ensures
            ({
                let s_ft = range.start.frame_time as int;
                let e_ft = range.end.frame_time as int;
                let s_pos = self.mark_pos(range.start).unwrap();
                let e_pos = self.mark_pos(range.end).unwrap();
                self.range_result(range).len() == self.bin_len_sum(s_ft, e_ft) - s_pos + e_pos
            }),
    {
        let s = range.start;
        let e = range.end;
        let s_ft = s.frame_time as int;
        let e_ft = e.frame_time as int;
        Self::lemma_find_mark_props(self.bin_marks(s_ft), s, 0);
        Self::lemma_find_mark_props(self.bin_marks(e_ft), e, 0);
        assert(self.bin_wf(s_ft));
        assert(self.bin_wf(e_ft));
        self.lemma_walk_len(
            s_ft,
            self.mark_pos(s).unwrap(),
            e_ft,
            self.mark_pos(e).unwrap(),
        );
    }

    /// Querying a range whose start and end are the same coordinate yields
    /// the empty sequence, and succeeds whenever the coordinate resolves.
    pub proof fn lemma_same_endpoint_yields_empty(self, ts: TimeStamp)
        requires
            self.wf(),
            self.mark_pos(ts) is Some,
        ensures
            self.range_verdict(TimeRange { start: ts, end: ts }) is None,
            self.range_result(TimeRange { start: ts, end: ts }) == Seq::<usize>::empty(),
    {
        let p = self.mark_pos(ts).unwrap();
        let ft = ts.frame_time as int;
        let j = Self::find_mark(self.bin_marks(ft), ts).unwrap();
        Self::lemma_find_mark_props(self.bin_marks(ft), ts, 0);
        assert(self.bin_wf(ft));
        assert(0 <= p <= self.bin_addrs(ft).len());
        assert(self.bin_addrs(ft).subrange(p, p) =~= Seq::<usize>::empty());
    }

    /// Checkpoints with no captured addresses are transparently skipped:
    /// a walk entered at the sentinel position of any run of empty
    /// checkpoints yields exactly what it yields entered after them. Empty
    /// checkpoints never appear as a discontinuity in a query's result.
    pub proof fn lemma_empty_checkpoints_skipped(self, a: int, b: int, e_ft: int, e_pos: int)
        requires
            a <= b <= e_ft,
            forall|m: int| a <= m < b ==> (#[trigger] self.bin_addrs(m)).len() == 0,
        ensures
            self.walk(a, 0, e_ft, e_pos) == self.walk(b, 0, e_ft, e_pos),
    {
        self.lemma_walk_skip_empty(a, b, e_ft, e_pos);
    }
}

/// The concatenation of the views of `chunks[i..]`.
pub open spec fn flatten_slices_from<'a>(chunks: Seq<&'a [usize]>, i: int) -> Seq<usize>
    decreases chunks.len() - i,
{
    if i < 0 || i >= chunks.len() {
        Seq::empty()
    } else {
        chunks[i]@ + flatten_slices_from(chunks, i + 1)
    }
}

proof fn lemma_flatten_slices_push<'a>(chunks: Seq<&'a [usize]>, c: &'a [usize], i: int)
    requires
        0 <= i <= chunks.len(),
    ensures
        flatten_slices_from(chunks.push(c), i) == flatten_slices_from(chunks, i) + c@,
    decreases chunks.len() - i,
{
    let with_c = chunks.push(c);
    if i == chunks.len() {
        assert(with_c[i] == c);
        assert(flatten_slices_from(with_c, i + 1) =~= Seq::<usize>::empty());
        assert(flatten_slices_from(with_c, i) =~= flatten_slices_from(chunks, i) + c@);
    } else {
        lemma_flatten_slices_push(chunks, c, i + 1);
        assert(with_c[i] == chunks[i]);
        assert(chunks[i]@ + (flatten_slices_from(chunks, i + 1) + c@) =~= (chunks[i]@
            + flatten_slices_from(chunks, i + 1)) + c@);
    }
}

/// A zero-copy view over the addresses a range query selected: a cursor over
/// borrowed slices of the store's bins, one slice per visited checkpoint.
///
/// It borrows from the store, so the store cannot be mutated until the view
/// is dropped or fully drained.
#[derive(Debug)]
pub struct AddrIter<'a> {
    chunks: Vec<&'a [usize]>,
    index: usize,
    index_index: usize,
}

impl<'a> AddrIter<'a> {
    /// Cursor sanity: it points into a chunk or one past the last chunk.
    pub closed spec fn wf(self) -> bool {
        &&& self.index <= self.chunks@.len()
        &&& (self.index < self.chunks@.len() ==> self.index_index
            <= self.chunks@[self.index as int]@.len())
        &&& (self.index == self.chunks@.len() ==> self.index_index == 0)
    }

    /// The addresses not yet yielded, in order.
    pub closed spec fn remaining(self) -> Seq<usize> {
        if self.index < self.chunks@.len() {
            self.chunks@[self.index as int]@.skip(self.index_index as int) + flatten_slices_from(
                self.chunks@,
                self.index + 1,
            )
        } else {
            Seq::empty()
        }
    }

    /// Yield the next address of the selection, if one is left.
    pub fn next(&mut self) -> (r: Option<usize>)
        requires
            old(self).wf(),
        ensures
            final(self).wf(),
            match r {
                Some(v) => old(self).remaining().len() > 0 && v == old(self).remaining()[0]
                    && final(self).remaining() == old(self).remaining().drop_first(),
                None => old(self).remaining().len() == 0 && final(self).remaining().len() == 0,
            },
    {
        loop
            invariant
                self.wf(),
                self.remaining() == old(self).remaining(),
            decreases self.chunks@.len() - self.index,
        {
            if self.index >= self.chunks.len() {
                return None;
            }
            let chunk = self.chunks[self.index];
            if self.index_index < chunk.len() {
                let entry = chunk[self.index_index];
                self.index_index = self.index_index + 1;
                proof {
                    assert(self.chunks@[self.index as int]@.skip((self.index_index - 1) as int)
                        =~= self.chunks@[self.index as int]@.skip(self.index_index as int).insert(
                        0,
                        entry,
                    ));
                    assert(final(self).remaining() =~= old(self).remaining().drop_first());
                }
                return Some(entry);
            }
            let ghost pre = *self;
            self.index = self.index + 1;
            self.index_index = 0;
            proof {
                assert(pre.chunks@[pre.index as int]@.skip(pre.index_index as int) =~= Seq::<
                    usize,
                >::empty());
                if self.index < self.chunks@.len() {
                    assert(self.chunks@[self.index as int]@.skip(0) =~= self.chunks@[self.index
                        as int]@);
                    assert(self.remaining() =~= pre.remaining());
                } else {
                    assert(self.remaining() =~= pre.remaining());
                }
            }
        }
    }

    /// Drain the view into a freshly allocated vector, in order.
    pub fn to_vec(self) -> (r: Vec<usize>)
        requires
            self.wf(),
        ensures
            r@ == self.remaining(),
    {
        let ghost orig = self.remaining();
        let mut it = self;
        let mut out: Vec<usize> = Vec::new();
        loop
            invariant
                it.wf(),
                out@ + it.remaining() == orig,
            ensures
                out@ == orig,
            decreases it.remaining().len(),
        {
            match it.next() {
                Some(v) => {
                    out.push(v);
                    proof {
                        assert(out@ + it.remaining() =~= orig);
                    }
                },
                None => {
                    proof {
                        assert(out@ =~= orig);
                    }
                    break ;
                },
            }
        }
        out
    }
}

} // verus!
