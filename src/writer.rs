//! The storage writer's decisions. The writer consumes an ordered message
//! queue, buffers frames per stream and decides when buffered frames and the
//! identity snapshot must reach disk; whoever runs it performs that I/O off
//! the consume loop.

use vstd::prelude::*;
use crate::frame::{frame_model, frames_model, AudioFrame};
use crate::identity::IdentityMap;

verus! {

/// A frame model.
pub type FrameModel = (u64, Seq<i16>);

/// A message from the receiver to the writer.
#[derive(Debug, Clone)]
pub enum WriterMessage {
    /// A frame of one stream.
    Frame { stream_id: u32, frame: AudioFrame },
    /// The identity map as it now stands.
    IdentityMapUpdate { map: IdentityMap },
    /// Write everything buffered now.
    Flush,
    /// Write everything buffered, then stop.
    Shutdown,
}

/// The frames of one stream to append to its file, in order.
#[derive(Debug, Clone)]
pub struct FlushBatch {
    pub stream_id: u32,
    pub frames: Vec<AudioFrame>,
}

/// Everything one flush writes: a batch per stream with buffered frames and
/// the latest identity snapshot, if any.
#[derive(Debug, Clone)]
pub struct FlushWork {
    pub batches: Vec<FlushBatch>,
    pub snapshot: Option<IdentityMap>,
}

/// What the writer's runner does next.
#[derive(Debug, Clone)]
pub enum WriterAction {
    /// Nothing to write; keep consuming.
    Continue,
    /// Write this, then keep consuming.
    Flush(FlushWork),
    /// Write this, then stop.
    FlushAndExit(FlushWork),
}

/// The frames of stream `id` among the buffered ones, in arrival order.
pub open spec fn frames_of_stream(p: Seq<(u32, FrameModel)>, id: u32) -> Seq<FrameModel>
    decreases p.len(),
{
    if p.len() == 0 {
        Seq::empty()
    } else {
        let r = frames_of_stream(p.drop_last(), id);
        if p.last().0 == id {
            r.push(p.last().1)
        } else {
            r
        }
    }
}

/// The stream identifiers of the batches.
pub open spec fn batch_ids(bs: Seq<FlushBatch>) -> Seq<u32> {
    bs.map_values(|b: FlushBatch| b.stream_id)
}

/// The batches hold the buffered frames `p` exactly: one batch per stream
/// that has frames, each with that stream's frames in arrival order.
pub open spec fn batches_hold(bs: Seq<FlushBatch>, p: Seq<(u32, FrameModel)>) -> bool {
    &&& forall|i: int, j: int|
        0 <= i < j < bs.len() ==> #[trigger] bs[i].stream_id != #[trigger] bs[j].stream_id
    &&& forall|i: int|
        0 <= i < bs.len() ==> frames_model((#[trigger] bs[i]).frames@) == frames_of_stream(
            p,
            bs[i].stream_id,
        ) && bs[i].frames@.len() > 0
    &&& forall|k: int| 0 <= k < p.len() ==> batch_ids(bs).contains(#[trigger] p[k].0)
}

/// The models of buffered frames.
pub open spec fn pending_model(p: Seq<(u32, AudioFrame)>) -> Seq<(u32, FrameModel)> {
    p.map_values(|e: (u32, AudioFrame)| (e.0, frame_model(e.1)))
}

proof fn lemma_frames_of_stream_nonempty(p: Seq<(u32, FrameModel)>, k: int)
    requires
        0 <= k < p.len(),
    ensures
        frames_of_stream(p, p[k].0).len() > 0,
    decreases p.len(),
{
    if k < p.len() - 1 {
        lemma_frames_of_stream_nonempty(p.drop_last(), k);
        assert(p.drop_last()[k] == p[k]);
    }
}

fn frames_for(p: &Vec<(u32, AudioFrame)>, id: u32) -> (r: Vec<AudioFrame>)
    ensures
        frames_model(r@) == frames_of_stream(pending_model(p@), id),
{
    let ghost pm = pending_model(p@);
    let mut out: Vec<AudioFrame> = Vec::new();
    let mut j: usize = 0;
    while j < p.len()
        invariant
            0 <= j <= p@.len(),
            pm == pending_model(p@),
            frames_model(out@) == frames_of_stream(pm.take(j as int), id),
        decreases p@.len() - j,
    {
        assert(pm.take(j + 1).drop_last() =~= pm.take(j as int));
        assert(pm.take(j + 1).last() == pm[j as int]);
        if p[j].0 == id {
            let f = p[j].1.duplicate();
            let ghost before = frames_model(out@);
            out.push(f);
            assert(frames_model(out@) =~= before.push(frame_model(f)));
        }
        j = j + 1;
    }
    assert(pm.take(j as int) =~= pm);
    out
}

/// Groups buffered frames into one batch per stream, streams in the order
/// of their first buffered frame.
pub fn group_by_stream(p: &Vec<(u32, AudioFrame)>) -> (r: Vec<FlushBatch>)
    ensures
        batches_hold(r@, pending_model(p@)),
{
    let ghost pm = pending_model(p@);
    let ghost mut wit: Seq<int> = Seq::empty();
    let mut batches: Vec<FlushBatch> = Vec::new();
    let mut i: usize = 0;
    while i < p.len()
        invariant
            0 <= i <= p@.len(),
            pm == pending_model(p@),
            wit.len() == i,
            forall|a: int, b: int|
                0 <= a < b < batches@.len() ==> #[trigger] batches@[a].stream_id
                    != #[trigger] batches@[b].stream_id,
            forall|a: int|
                0 <= a < batches@.len() ==> frames_model((#[trigger] batches@[a]).frames@)
                    == frames_of_stream(pm, batches@[a].stream_id) && batches@[a].frames@.len()
                    > 0,
            forall|k: int|
                0 <= k < i ==> 0 <= #[trigger] wit[k] < batches@.len() && batches@[wit[k]].stream_id
                    == pm[k].0,
        decreases p@.len() - i,
    {
        let id = p[i].0;
        assert(pm[i as int].0 == id);
        let mut g: usize = 0;
        let mut found = false;
        let ghost mut at: int = 0;
        while g < batches.len()
            invariant
                0 <= g <= batches@.len(),
                !found ==> forall|a: int| 0 <= a < g ==> (#[trigger] batches@[a]).stream_id != id,
                found ==> 0 <= at < batches@.len() && batches@[at].stream_id == id,
            decreases batches@.len() - g,
        {
            if batches[g].stream_id == id {
                found = true;
                proof {
                    at = g as int;
                }
            }
            g = g + 1;
        }
        if !found {
            let frames = frames_for(p, id);
            proof {
                lemma_frames_of_stream_nonempty(pm, i as int);
                at = batches@.len() as int;
            }
            batches.push(FlushBatch { stream_id: id, frames });
        }
        proof {
            wit = wit.push(at);
        }
        i = i + 1;
    }
    assert forall|k: int| 0 <= k < pm.len() implies batch_ids(batches@).contains(
        #[trigger] pm[k].0,
    ) by {
        assert(batch_ids(batches@)[wit[k]] == pm[k].0);
    }
    batches
}

/// The writer's state: frames buffered since the last flush, the latest
/// identity snapshot, and whether it has shut down.
#[derive(Debug, Clone)]
pub struct StorageWriter {
    pending: Vec<(u32, AudioFrame)>,
    snapshot: Option<IdentityMap>,
    finished: bool,
}

/// The identity snapshot of a flush is the writer's latest one.
pub open spec fn snapshot_matches(s: Option<IdentityMap>, latest: Option<IdentityMap>) -> bool {
    match (s, latest) {
        (Some(a), Some(b)) => a@ == b@ && a.wf(),
        (None, None) => true,
        _ => false,
    }
}

impl StorageWriter {
    /// Frames buffered since the last flush, in arrival order.
    pub closed spec fn pending(&self) -> Seq<(u32, FrameModel)> {
        pending_model(self.pending@)
    }

    /// The latest identity snapshot.
    pub closed spec fn latest_snapshot(&self) -> Option<IdentityMap> {
        self.snapshot
    }

    /// Whether the writer has shut down.
    pub closed spec fn is_finished(&self) -> bool {
        self.finished
    }

    /// The snapshot, if any, is well formed.
    pub closed spec fn wf(&self) -> bool {
        self.snapshot matches Some(m) ==> m.wf()
    }

    /// A writer with nothing buffered.
    pub fn new() -> (r: StorageWriter)
        ensures
            r.wf(),
            r.pending().len() == 0,
            r.latest_snapshot() is None,
            !r.is_finished(),
    {
        let r = StorageWriter { pending: Vec::new(), snapshot: None, finished: false };
        assert(r.pending() =~= Seq::<(u32, FrameModel)>::empty());
        r
    }

    /// Whether the writer has shut down.
    pub fn finished(&self) -> (r: bool)
        ensures
            r == self.is_finished(),
    {
        self.finished
    }

    /// Drains the buffer into the work of one flush.
    fn take_work(&mut self) -> (r: FlushWork)
        requires
            old(self).wf(),
        ensures
            final(self).wf(),
            batches_hold(r.batches@, old(self).pending()),
            snapshot_matches(r.snapshot, old(self).latest_snapshot()),
            final(self).pending().len() == 0,
            final(self).latest_snapshot() == old(self).latest_snapshot(),
            final(self).is_finished() == old(self).is_finished(),
    {
        let batches = group_by_stream(&self.pending);
        self.pending = Vec::new();
        assert(self.pending() =~= Seq::<(u32, FrameModel)>::empty());
        let snapshot = match &self.snapshot {
            Some(m) => Some(m.clone_map()),
            None => None,
        };
        FlushWork { batches, snapshot }
    }

    /// Handles one message. A frame is buffered under its stream; an
    /// identity update replaces the snapshot; `Flush` writes everything
    /// buffered and the snapshot; `Shutdown` does the same and stops the
    /// writer. Once stopped, messages change nothing.
    pub fn on_message(&mut self, msg: WriterMessage) -> (r: WriterAction)
        requires
            old(self).wf(),
            msg matches WriterMessage::IdentityMapUpdate { map } ==> map.wf(),
        ensures
            final(self).wf(),
            old(self).is_finished() ==> r is Continue && final(self).pending() == old(self).pending()
                && final(self).latest_snapshot() == old(self).latest_snapshot()
                && final(self).is_finished(),
            !old(self).is_finished() ==> match msg {
                WriterMessage::Frame { stream_id, frame } => r is Continue && final(self).pending()
                    == old(self).pending().push((stream_id, frame_model(frame)))
                    && final(self).latest_snapshot() == old(self).latest_snapshot()
                    && !final(self).is_finished(),
                WriterMessage::IdentityMapUpdate { map } => r is Continue && final(self).pending()
                    == old(self).pending() && final(self).latest_snapshot() == Some(map)
                    && !final(self).is_finished(),
                WriterMessage::Flush => (r matches WriterAction::Flush(w) && batches_hold(
                    w.batches@,
                    old(self).pending(),
                ) && snapshot_matches(w.snapshot, old(self).latest_snapshot()))
                    && final(self).pending().len() == 0 && final(self).latest_snapshot() == old(
                    self,
                ).latest_snapshot() && !final(self).is_finished(),
                WriterMessage::Shutdown => (r matches WriterAction::FlushAndExit(w) && batches_hold(
                    w.batches@,
                    old(self).pending(),
                ) && snapshot_matches(w.snapshot, old(self).latest_snapshot()))
                    && final(self).pending().len() == 0 && final(self).is_finished(),
            },
    {
        if self.finished {
            return WriterAction::Continue;
        }
        match msg {
            WriterMessage::Frame { stream_id, frame } => {
                let ghost before = self.pending();
                let ghost fm = frame_model(frame);
                self.pending.push((stream_id, frame));
                assert(self.pending() =~= before.push((stream_id, fm)));
                WriterAction::Continue
            },
            WriterMessage::IdentityMapUpdate { map } => {
                self.snapshot = Some(map);
                WriterAction::Continue
            },
            WriterMessage::Flush => WriterAction::Flush(self.take_work()),
            WriterMessage::Shutdown => {
                let w = self.take_work();
                self.finished = true;
                WriterAction::FlushAndExit(w)
            },
        }
    }

    /// The periodic flush timer fired: writes what is buffered, if anything.
    pub fn on_timer(&mut self) -> (r: WriterAction)
        requires
            old(self).wf(),
        ensures
            final(self).wf(),
            final(self).latest_snapshot() == old(self).latest_snapshot(),
            final(self).is_finished() == old(self).is_finished(),
            (old(self).is_finished() || (old(self).pending().len() == 0
                && old(self).latest_snapshot() is None)) ==> r is Continue && final(self).pending()
                == old(self).pending(),
            !(old(self).is_finished() || (old(self).pending().len() == 0
                && old(self).latest_snapshot() is None)) ==> (r matches WriterAction::Flush(w)
                && batches_hold(w.batches@, old(self).pending()) && snapshot_matches(
                w.snapshot,
                old(self).latest_snapshot(),
            )) && final(self).pending().len() == 0,
    {
        if self.finished || (self.pending.len() == 0 && self.snapshot.is_none()) {
            return WriterAction::Continue;
        }
        WriterAction::Flush(self.take_work())
    }

    /// Every producer is gone: treated as `Shutdown`.
    pub fn on_channel_closed(&mut self) -> (r: WriterAction)
        requires
            old(self).wf(),
        ensures
            final(self).wf(),
            final(self).is_finished(),
            old(self).is_finished() ==> r is Continue && final(self).pending() == old(self).pending(),
            !old(self).is_finished() ==> (r matches WriterAction::FlushAndExit(w) && batches_hold(
                w.batches@,
                old(self).pending(),
            ) && snapshot_matches(w.snapshot, old(self).latest_snapshot()))
                && final(self).pending().len() == 0,
    {
        self.on_message(WriterMessage::Shutdown)
    }
}

} // verus!
