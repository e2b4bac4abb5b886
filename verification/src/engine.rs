//! The reassembly engine. Segments are submitted in arbitrary order; in
//! single-file mode the engine advances a write cursor through them in index
//! order, holding early arrivals in a pending buffer, while directory mode
//! stores each one independently. The engine performs no I/O itself: every
//! mutating call returns the writes the caller must carry out, and the ghost
//! fields model what those writes do to the output.

use vstd::prelude::*;

use crate::record::{encode_state, spec_state_record};

verus! {

/// Which kind of target the engine materializes segments into.
#[derive(Clone, Copy, PartialEq, Eq, Structural, Debug)]
pub enum Mode {
    /// One independently addressable file per segment index.
    Directory,
    /// One output file holding the in-order concatenation of all segments.
    File,
}

/// The views of a sequence of byte buffers.
pub open spec fn views_of(v: Seq<Vec<u8>>) -> Seq<Seq<u8>> {
    Seq::new(v.len(), |i: int| v[i]@)
}

/// The byte count held by one pending-buffer slot.
pub open spec fn slot_len(o: Option<Seq<u8>>) -> int {
    match o {
        Some(b) => b.len() as int,
        None => 0,
    }
}

/// The total byte count held in the pending buffer.
pub open spec fn buffered_total(s: Seq<Option<Seq<u8>>>) -> int
    decreases s.len(),
{
    if s.len() == 0 {
        0
    } else {
        buffered_total(s.drop_last()) + slot_len(s.last())
    }
}

proof fn lemma_buffered_total_nonneg(s: Seq<Option<Seq<u8>>>)
    ensures
        buffered_total(s) >= 0,
    decreases s.len(),
{
    if s.len() > 0 {
        lemma_buffered_total_nonneg(s.drop_last());
    }
}

proof fn lemma_buffered_total_update(s: Seq<Option<Seq<u8>>>, k: int, v: Option<Seq<u8>>)
    requires
        0 <= k < s.len(),
    ensures
        buffered_total(s.update(k, v)) == buffered_total(s) - slot_len(s[k]) + slot_len(v),
    decreases s.len(),
{
    let t = s.update(k, v);
    if k == s.len() - 1 {
        assert(t.drop_last() =~= s.drop_last());
        assert(t.last() == v);
    } else {
        assert(t.drop_last() =~= s.drop_last().update(k, v));
        assert(t.last() == s.last());
        lemma_buffered_total_update(s.drop_last(), k, v);
    }
}

proof fn lemma_buffered_total_at_least_slot(s: Seq<Option<Seq<u8>>>, k: int)
    requires
        0 <= k < s.len(),
    ensures
        buffered_total(s) >= slot_len(s[k]),
{
    lemma_buffered_total_update(s, k, None);
    lemma_buffered_total_nonneg(s.update(k, None));
}

/// What the caller must do after one submission.
pub enum WriteOutcome {
    /// Directory mode: store `bytes` as the file named by `index`.
    DirFile { index: usize, bytes: Vec<u8> },
    /// File mode: append `bytes` at the output file's cursor, flush it, then
    /// persist `record` as the sidecar's new content.
    Appended { bytes: Vec<u8>, record: Vec<u8> },
    /// File mode: the segment was held in the pending buffer; nothing to do.
    Held,
}

/// What the caller must do after one drain attempt.
pub struct FlushOutcome {
    /// Append each buffer to the output file, in order, flushing after each.
    pub chunks: Vec<Vec<u8>>,
    /// If present, persist afterwards as the sidecar's new content.
    pub record: Option<Vec<u8>>,
    /// The merge is complete: remove the sidecar.
    pub remove_state: bool,
}

/// The reassembly engine.
///
/// The concrete fields mirror the persisted and in-memory state; the ghost
/// fields model the output file of the current process run. `chunks` is the
/// list of byte buffers the caller was told to append, in order, so the file
/// grew by `chunks.flatten()` since construction; `seg` maps each flushed or
/// pending slot to the bytes occupying it; `ordered` records that so far
/// every directly written segment landed in its own slot, which fails only
/// when an index is resubmitted out of turn; `base_pos` and `base_bytes` are
/// the resume point this run started from.
pub struct Merger {
    pub mode: Mode,
    pub pending: Vec<Option<Vec<u8>>>,
    pub indexed: usize,
    pub pos: usize,
    pub size: usize,
    pub stored_bytes: usize,
    pub flushed_bytes: usize,
    pub chunks: Ghost<Seq<Seq<u8>>>,
    pub seg: Ghost<Map<int, Seq<u8>>>,
    pub ordered: Ghost<bool>,
    pub base_pos: Ghost<int>,
    pub base_bytes: Ghost<int>,
}

impl Merger {
    /// The pending buffer as a sequence of optional byte sequences.
    pub open spec fn pend(self) -> Seq<Option<Seq<u8>>> {
        Seq::new(
            self.pending@.len(),
            |k: int|
                match self.pending@[k] {
                    Some(b) => Some(b@),
                    None => None,
                },
        )
    }

    /// The bytes appended to the output file during this run.
    pub open spec fn output(self) -> Seq<u8> {
        self.chunks@.flatten()
    }

    /// No segment is waiting in the pending buffer.
    pub open spec fn buffer_empty(self) -> bool {
        forall|k: int| 0 <= k < self.pend().len() ==> self.pend()[k] is None
    }

    /// A submission of `index` is written straight to the output file rather
    /// than buffered: index zero always is, as is the index the cursor waits
    /// for once the cursor has advanced.
    pub open spec fn direct_write(self, index: usize) -> bool {
        index == 0 || (self.pos != 0 && self.pos == index)
    }

    /// The average-segment-size projection of the total output size.
    pub open spec fn spec_estimate(self) -> int {
        if self.indexed == 0 {
            0
        } else {
            (self.stored_bytes as int / self.indexed as int) * (self.size + 1)
        }
    }

    /// The engine's invariant.
    pub open spec fn wf(self) -> bool {
        &&& self.size < usize::MAX
        &&& self.base_pos@ >= 0
        &&& self.base_bytes@ >= 0
        &&& self.flushed_bytes + buffered_total(self.pend()) <= self.stored_bytes
        &&& (self.mode == Mode::Directory ==> self.pend().len() == 0 && self.chunks@.len() == 0
            && self.flushed_bytes == 0)
        &&& (self.mode == Mode::File ==> self.pend().len() == self.size + 1)
        &&& (self.mode == Mode::File ==> self.pos == self.base_pos@ + self.chunks@.len())
        &&& (self.mode == Mode::File ==> self.flushed_bytes == self.base_bytes@
            + self.output().len())
        &&& (forall|k: int|
            #![trigger self.pend()[k]]
            self.pos <= k < self.pend().len() && self.pend()[k] is Some ==> self.seg@.contains_key(
                k,
            ) && self.pend()[k] == Some(self.seg@[k]))
        &&& (self.mode == Mode::File && self.ordered@ ==> self.pos <= self.size + 1)
        &&& (self.mode == Mode::File && self.ordered@ ==> forall|k: int|
            #![trigger self.seg@.contains_key(k)]
            self.base_pos@ <= k < self.pos ==> self.seg@.contains_key(k) && self.chunks@[k
                - self.base_pos@] == self.seg@[k])
    }

    /// Builds a single-file engine over `total` segments. `resume` carries
    /// the cursor and flushed-byte count of a prior run whose output file the
    /// caller reopened and repositioned; `None` means a fresh start over a
    /// newly truncated file.
    pub fn new_file(total: usize, resume: Option<(usize, usize)>) -> (m: Merger)
        requires
            total >= 1,
            resume matches Some(pf) ==> pf.0 >= 1,
        ensures
            m.wf(),
            m.mode == Mode::File,
            m.size == total - 1,
            m.chunks@ == Seq::<Seq<u8>>::empty(),
            m.seg@ == Map::<int, Seq<u8>>::empty(),
            m.buffer_empty(),
            match resume {
                Some(pf) => m.pos == pf.0 && m.flushed_bytes == pf.1 && m.stored_bytes == pf.1
                    && m.indexed == pf.0 && m.base_pos@ == pf.0 && m.base_bytes@ == pf.1
                    && m.ordered@ == (pf.0 <= total),
                None => m.pos == 0 && m.flushed_bytes == 0 && m.stored_bytes == 0 && m.indexed == 0
                    && m.base_pos@ == 0 && m.base_bytes@ == 0 && m.ordered@,
            },
    {
        let (pos, flushed) = match resume {
            Some((p, f)) => (p, f),
            None => (0usize, 0usize),
        };
        let mut pending: Vec<Option<Vec<u8>>> = Vec::new();
        let mut k: usize = 0;
        while k < total
            invariant
                k <= total,
                pending@.len() == k,
                forall|i: int| 0 <= i < k ==> pending@[i] is None,
            decreases total - k,
        {
            pending.push(None);
            k = k + 1;
        }
        let m = Merger {
            mode: Mode::File,
            pending,
            indexed: pos,
            pos,
            size: total - 1,
            stored_bytes: flushed,
            flushed_bytes: flushed,
            chunks: Ghost(Seq::empty()),
            seg: Ghost(Map::empty()),
            ordered: Ghost(pos <= total),
            base_pos: Ghost(pos as int),
            base_bytes: Ghost(flushed as int),
        };
        proof {
            assert(m.pend() =~= Seq::new(total as nat, |k: int| None::<Seq<u8>>));
            lemma_buffered_total_all_none(m.pend());
        }
        m
    }

    /// Builds a directory engine over `total` segments: cursor zero, no
    /// pending buffer, no sidecar state.
    pub fn new_directory(total: usize) -> (m: Merger)
        requires
            total >= 1,
        ensures
            m.wf(),
            m.mode == Mode::Directory,
            m.size == total - 1,
            m.pos == 0,
            m.indexed == 0,
            m.stored_bytes == 0,
            m.flushed_bytes == 0,
            m.buffer_empty(),
    {
        Merger {
            mode: Mode::Directory,
            pending: Vec::new(),
            indexed: 0,
            pos: 0,
            size: total - 1,
            stored_bytes: 0,
            flushed_bytes: 0,
            chunks: Ghost(Seq::empty()),
            seg: Ghost(Map::empty()),
            ordered: Ghost(true),
            base_pos: Ghost(0),
            base_bytes: Ghost(0),
        }
    }

    /// The write cursor: the next index that must become durable before any
    /// higher one can.
    pub fn position(&self) -> (r: usize)
        ensures
            r == self.pos,
    {
        self.pos
    }

    /// The total bytes accepted so far, durable or still pending.
    pub fn stored(&self) -> (r: usize)
        ensures
            r == self.stored_bytes,
    {
        self.stored_bytes
    }

    /// The completion probe: true exactly when the pending buffer is empty
    /// and the cursor has passed the last index.
    pub fn buffered(&self) -> (r: bool)
        requires
            self.wf(),
        ensures
            r == (self.buffer_empty() && self.pos >= self.size + 1),
    {
        let mut empty = true;
        let mut k: usize = 0;
        while k < self.pending.len()
            invariant
                k <= self.pend().len(),
                empty ==> forall|i: int| 0 <= i < k ==> self.pend()[i] is None,
                !empty ==> exists|i: int| 0 <= i < k && self.pend()[i] is Some,
            decreases self.pend().len() - k,
        {
            if self.pending[k].is_some() {
                proof {
                    assert(self.pend()[k as int] is Some);
                }
                empty = false;
            }
            k = k + 1;
        }
        empty && self.pos >= self.size + 1
    }

    /// Accepts one segment. Directory mode hands it straight back as a
    /// per-index file to store. File mode appends it to the output when its
    /// index is directly writable (index zero, or the index the cursor waits
    /// for) together with the state record to persist, and otherwise holds it
    /// in the pending buffer. Every call counts one submission.
    pub fn write(&mut self, index: usize, buf: Vec<u8>) -> (out: WriteOutcome)
        requires
            old(self).wf(),
            index <= old(self).size,
            old(self).indexed < usize::MAX,
            old(self).pos < usize::MAX,
            old(self).stored_bytes + buf@.len() <= usize::MAX,
            old(self).flushed_bytes + buf@.len() <= usize::MAX,
        ensures
            final(self).wf(),
            final(self).mode == old(self).mode,
            final(self).size == old(self).size,
            final(self).indexed == old(self).indexed + 1,
            final(self).base_pos@ == old(self).base_pos@,
            final(self).base_bytes@ == old(self).base_bytes@,
            final(self).stored_bytes == old(self).stored_bytes + buf@.len(),
            old(self).mode == Mode::Directory ==> {
                &&& out == (WriteOutcome::DirFile { index, bytes: buf })
                &&& final(self).pos == old(self).pos + 1
                &&& final(self).flushed_bytes == 0
                &&& final(self).chunks@ == old(self).chunks@
                &&& final(self).pend() == old(self).pend()
            },
            old(self).mode == Mode::File && old(self).direct_write(index) ==> {
                &&& (out matches WriteOutcome::Appended { bytes, record } && bytes@ == buf@
                    && record@ == spec_state_record(
                    (old(self).pos + 1) as u64,
                    (old(self).flushed_bytes + buf@.len()) as u64,
                ))
                &&& final(self).pos == old(self).pos + 1
                &&& final(self).flushed_bytes == old(self).flushed_bytes + buf@.len()
                &&& final(self).chunks@ == old(self).chunks@.push(buf@)
                &&& final(self).pend() == old(self).pend()
                &&& final(self).ordered@ == (old(self).ordered@ && index == old(self).pos)
                &&& final(self).seg@ == (if index == old(self).pos {
                    old(self).seg@.insert(index as int, buf@)
                } else {
                    old(self).seg@
                })
            },
            old(self).mode == Mode::File && !old(self).direct_write(index) ==> {
                &&& out is Held
                &&& final(self).pos == old(self).pos
                &&& final(self).flushed_bytes == old(self).flushed_bytes
                &&& final(self).chunks@ == old(self).chunks@
                &&& final(self).pend() == old(self).pend().update(index as int, Some(buf@))
                &&& final(self).ordered@ == old(self).ordered@
                &&& final(self).seg@ == (if index > old(self).pos {
                    old(self).seg@.insert(index as int, buf@)
                } else {
                    old(self).seg@
                })
            },
    {
        match self.mode {
            Mode::Directory => {
                self.pos = self.pos + 1;
                self.stored_bytes = self.stored_bytes + buf.len();
                self.indexed = self.indexed + 1;
                proof {
                    assert(self.pend() =~= old(self).pend());
                }
                WriteOutcome::DirFile { index, bytes: buf }
            },
            Mode::File => {
                self.indexed = self.indexed + 1;
                if index == 0 || (self.pos != 0 && self.pos == index) {
                    let ghost oldpos = self.pos as int;
                    let len = buf.len();
                    self.pos = self.pos + 1;
                    self.stored_bytes = self.stored_bytes + len;
                    self.flushed_bytes = self.flushed_bytes + len;
                    self.chunks = Ghost(self.chunks@.push(buf@));
                    self.seg = Ghost(
                        if index as int == oldpos {
                            self.seg@.insert(index as int, buf@)
                        } else {
                            self.seg@
                        },
                    );
                    let ghost now_ordered = self.ordered@ && index as int == oldpos;
                    self.ordered = Ghost(now_ordered);
                    let record = encode_state(self.pos as u64, self.flushed_bytes as u64);
                    proof {
                        assert(self.pend() =~= old(self).pend());
                        old(self).chunks@.lemma_flatten_push(buf@);
                    }
                    WriteOutcome::Appended { bytes: buf, record }
                } else {
                    self.stored_bytes = self.stored_bytes + buf.len();
                    self.seg = Ghost(
                        if index > self.pos {
                            self.seg@.insert(index as int, buf@)
                        } else {
                            self.seg@
                        },
                    );
                    self.pending[index] = Some(buf);
                    proof {
                        assert(self.pend() =~= old(self).pend().update(index as int, Some(buf@)));
                        lemma_buffered_total_update(old(self).pend(), index as int, Some(buf@));
                    }
                    WriteOutcome::Held
                }
            },
        }
    }

    /// Drains the pending buffer: repeatedly hands out the buffer waiting at
    /// the cursor, advancing the cursor past it, until a gap is reached. The
    /// outcome carries the buffers to append in order; a new state record
    /// exactly when the cursor advanced; and the order to remove the sidecar
    /// exactly when the merge is complete. Directory mode never drains.
    pub fn flush(&mut self) -> (out: FlushOutcome)
        requires
            old(self).wf(),
        ensures
            final(self).wf(),
            final(self).mode == old(self).mode,
            final(self).size == old(self).size,
            final(self).indexed == old(self).indexed,
            final(self).stored_bytes == old(self).stored_bytes,
            final(self).seg@ == old(self).seg@,
            final(self).ordered@ == old(self).ordered@,
            final(self).base_pos@ == old(self).base_pos@,
            final(self).base_bytes@ == old(self).base_bytes@,
            old(self).mode == Mode::Directory ==> *final(self) == *old(self)
                && out.chunks@.len() == 0 && out.record is None && !out.remove_state,
            old(self).mode == Mode::File ==> {
                &&& final(self).pos == old(self).pos + out.chunks@.len()
                &&& final(self).chunks@ == old(self).chunks@ + views_of(out.chunks@)
                &&& (forall|j: int|
                    0 <= j < out.chunks@.len() ==> old(self).pend()[old(self).pos + j] == Some(
                        out.chunks@[j]@,
                    ))
                &&& (forall|k: int|
                    #![trigger final(self).pend()[k]]
                    0 <= k < old(self).pend().len() ==> final(self).pend()[k] == (if old(self).pos
                        <= k < final(self).pos {
                        None::<Seq<u8>>
                    } else {
                        old(self).pend()[k]
                    }))
                &&& final(self).flushed_bytes == old(self).flushed_bytes + views_of(
                    out.chunks@,
                ).flatten().len()
                &&& (final(self).pos > final(self).size
                    || final(self).pend()[final(self).pos as int] is None)
                &&& (out.record is Some <==> out.chunks@.len() > 0)
                &&& (out.record matches Some(r) ==> r@ == spec_state_record(
                    final(self).pos as u64,
                    final(self).flushed_bytes as u64,
                ))
                &&& out.remove_state == (final(self).pos > final(self).size)
            },
    {
        if self.mode == Mode::Directory {
            return FlushOutcome { chunks: Vec::new(), record: None, remove_state: false };
        }
        let ghost pre = *self;
        let mut drained: Vec<Vec<u8>> = Vec::new();
        while self.pos <= self.size && self.pending[self.pos].is_some()
            invariant
                self.wf(),
                self.mode == Mode::File,
                self.size == pre.size,
                self.indexed == pre.indexed,
                self.stored_bytes == pre.stored_bytes,
                self.seg@ == pre.seg@,
                self.ordered@ == pre.ordered@,
                self.base_pos@ == pre.base_pos@,
                self.base_bytes@ == pre.base_bytes@,
                pre.wf(),
                pre.mode == Mode::File,
                self.pend().len() == pre.pend().len(),
                self.pos == pre.pos + drained@.len(),
                self.chunks@ == pre.chunks@ + views_of(drained@),
                forall|j: int|
                    0 <= j < drained@.len() ==> pre.pend()[pre.pos + j] == Some(drained@[j]@),
                forall|k: int|
                    #![trigger self.pend()[k]]
                    0 <= k < pre.pend().len() ==> self.pend()[k] == (if pre.pos <= k < self.pos {
                        None::<Seq<u8>>
                    } else {
                        pre.pend()[k]
                    }),
                self.flushed_bytes == pre.flushed_bytes + views_of(drained@).flatten().len(),
            decreases self.size + 1 - self.pos,
        {
            let ghost mid = *self;
            proof {
                lemma_buffered_total_at_least_slot(self.pend(), self.pos as int);
                lemma_buffered_total_update(self.pend(), self.pos as int, None);
            }
            let at = self.pos;
            let chunk_opt = self.pending[at].take();
            let chunk = chunk_opt.unwrap();
            let len = chunk.len();
            self.pos = self.pos + 1;
            self.flushed_bytes = self.flushed_bytes + len;
            self.chunks = Ghost(self.chunks@.push(chunk@));
            proof {
                assert(self.pend() =~= mid.pend().update(at as int, None));
                mid.chunks@.lemma_flatten_push(chunk@);
                assert(views_of(drained@.push(chunk)) =~= views_of(drained@).push(chunk@));
                views_of(drained@).lemma_flatten_push(chunk@);
                assert(self.chunks@ =~= pre.chunks@ + views_of(drained@.push(chunk)));
            }
            drained.push(chunk);
        }
        let record = if drained.len() > 0 {
            Some(encode_state(self.pos as u64, self.flushed_bytes as u64))
        } else {
            None
        };
        let remove_state = self.pos > self.size;
        FlushOutcome { chunks: drained, record, remove_state }
    }

    /// Projects the total output size from the average size of the segments
    /// accepted so far; zero before the first submission.
    pub fn estimate(&self) -> (r: usize)
        requires
            self.wf(),
            self.indexed > 0 ==> (self.stored_bytes as int / self.indexed as int) * (self.size + 1)
                <= usize::MAX,
        ensures
            r == self.spec_estimate(),
    {
        if self.indexed == 0 {
            0
        } else {
            (self.stored_bytes / self.indexed) * (self.size + 1)
        }
    }
}

/// The concatenation, in index order, of the segments `0..n-1` as `seg`
/// records them.
pub open spec fn ordered_concat(seg: Map<int, Seq<u8>>, n: int) -> Seq<u8>
    decreases n,
{
    if n <= 0 {
        Seq::empty()
    } else {
        ordered_concat(seg, n - 1) + seg[n - 1]
    }
}

proof fn lemma_chunks_flatten_ordered(chunks: Seq<Seq<u8>>, seg: Map<int, Seq<u8>>, n: int)
    requires
        0 <= n == chunks.len(),
        forall|k: int| 0 <= k < n ==> chunks[k] == seg[k],
    ensures
        chunks.flatten() == ordered_concat(seg, n),
    decreases n,
{
    if n == 0 {
        assert(chunks =~= Seq::<Seq<u8>>::empty());
        assert(Seq::<Seq<u8>>::empty().flatten() =~= Seq::<u8>::empty());
    } else {
        lemma_chunks_flatten_ordered(chunks.drop_last(), seg, n - 1);
        assert(chunks =~= chunks.drop_last().push(chunks.last()));
        chunks.drop_last().lemma_flatten_push(chunks.last());
    }
}

/// At every point of a single-file merge that began fresh and saw every
/// direct write land in its own slot, the bytes appended to the output file
/// equal the concatenation, in index order, of the segments the cursor has
/// passed — whatever order they were submitted in.
pub proof fn lemma_output_is_ordered_prefix(m: Merger)
    requires
        m.wf(),
        m.mode == Mode::File,
        m.base_pos@ == 0,
        m.ordered@,
    ensures
        m.chunks@.len() == m.pos,
        forall|k: int| 0 <= k < m.pos ==> m.seg@.contains_key(k) && m.chunks@[k] == m.seg@[k],
        m.output() == ordered_concat(m.seg@, m.pos as int),
{
    assert forall|k: int| 0 <= k < m.pos implies m.seg@.contains_key(k) && m.chunks@[k]
        == m.seg@[k] by {
        assert(m.seg@.contains_key(k));
    }
    lemma_chunks_flatten_ordered(m.chunks@, m.seg@, m.pos as int);
}

/// Once such a merge is complete — the pending buffer is empty and the
/// cursor has passed the last index — the output file holds exactly the
/// index-ordered concatenation of all the segments.
pub proof fn lemma_complete_output_is_ordered(m: Merger)
    requires
        m.wf(),
        m.mode == Mode::File,
        m.base_pos@ == 0,
        m.ordered@,
        m.buffer_empty(),
        m.pos >= m.size + 1,
    ensures
        m.pos == m.size + 1,
        m.chunks@.len() == m.size + 1,
        forall|k: int| 0 <= k <= m.size ==> m.seg@.contains_key(k) && m.chunks@[k] == m.seg@[k],
        m.output() == ordered_concat(m.seg@, m.size + 1),
{
    lemma_output_is_ordered_prefix(m);
}

/// The completion probe never holds while the cursor still owes an index,
/// and once it holds every index this run flushed — all of them, on a fresh
/// start — is recorded in its slot.
pub proof fn lemma_probe_meaning(m: Merger)
    requires
        m.wf(),
        m.mode == Mode::File,
        m.ordered@,
    ensures
        m.pos <= m.size ==> !(m.buffer_empty() && m.pos >= m.size + 1),
        m.buffer_empty() && m.pos >= m.size + 1 ==> m.pos == m.size + 1 && forall|k: int|
            m.base_pos@ <= k < m.pos ==> m.seg@.contains_key(k),
{
}

/// With at least one submission accepted and a uniform segment size, the
/// estimate is exactly that size times the total segment count.
pub proof fn lemma_estimate_uniform(m: Merger, s: int)
    requires
        m.wf(),
        m.indexed > 0,
        s >= 0,
        m.stored_bytes == s * m.indexed,
    ensures
        m.spec_estimate() == s * (m.size + 1),
{
    assert(m.stored_bytes as int / m.indexed as int == s) by (nonlinear_arith)
        requires
            m.indexed > 0,
            s >= 0,
            m.stored_bytes == s * m.indexed,
    ;
}

proof fn lemma_buffered_total_all_none(s: Seq<Option<Seq<u8>>>)
    requires
        forall|k: int| 0 <= k < s.len() ==> s[k] is None,
    ensures
        buffered_total(s) == 0,
    decreases s.len(),
{
    if s.len() > 0 {
        lemma_buffered_total_all_none(s.drop_last());
    }
}

} // verus!
