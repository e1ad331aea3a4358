//! The decisions of a live HLS recording: which segments of a refreshed
//! playlist to fetch, when to poll the playlist again and when to stop.
//!
//! The recorder is driven from outside: the caller fetches the playlist and the
//! segments, hands each outcome to the recorder and performs the action that
//! comes back.
use vstd::prelude::*;
use crate::hls::SeenSequences;

verus! {

/// What the recording does next.
pub enum LiveAction {
    /// Fetch the segment at this position of the last playlist.
    Fetch(usize),
    /// Wait, then read the playlist again.
    Poll,
    /// Stop and write the recorded segments.
    Finish,
    /// Stop with this error: nothing was recorded.
    Fail(String),
}

/// The message when a recording ends with no segment.
pub open spec fn nothing_recorded_message() -> Seq<char> {
    "No segments recorded"@
}

/// The action once the segments of a playlist before position `pos` of the
/// queue were handled: the next queued segment; else another poll while the
/// playlist is live; else the end, which fails when nothing was recorded.
pub open spec fn next_action_is(r: LiveAction, queue: Seq<int>, pos: int, live: bool, any: bool) -> bool {
    if pos < queue.len() {
        r == LiveAction::Fetch(queue[pos] as usize)
    } else if live {
        r is Poll
    } else {
        end_action_is(r, any)
    }
}

/// The action that ends a recording.
pub open spec fn end_action_is(r: LiveAction, any: bool) -> bool {
    if any {
        r is Finish
    } else {
        r matches LiveAction::Fail(m) && m@ == nothing_recorded_message()
    }
}

/// The positions of the sequence numbers in `seqs` that are not in `seen`, in
/// order.
pub open spec fn fresh_positions(seen: Set<u64>, seqs: Seq<u64>) -> Seq<int> {
    Seq::new(seqs.len(), |i: int| i).filter(|i: int| !seen.contains(seqs[i]))
}

/// The state of a live recording.
pub struct LiveRecorder {
    seen: SeenSequences,
    any: bool,
    seqs: Vec<u64>,
    queue: Vec<usize>,
    pos: usize,
    live: bool,
}

impl LiveRecorder {
    /// The sequence numbers already taken.
    pub closed spec fn seen(&self) -> Set<u64> {
        self.seen@
    }

    /// Some segment has been recorded.
    pub closed spec fn any_recorded(&self) -> bool {
        self.any
    }

    /// The sequence numbers of the last playlist.
    pub closed spec fn sequences(&self) -> Seq<u64> {
        self.seqs@
    }

    /// The positions of the last playlist that were new when it was read.
    pub closed spec fn queue(&self) -> Seq<int> {
        self.queue@.map_values(|i: usize| i as int)
    }

    /// How many queued positions have been handed out.
    pub closed spec fn position(&self) -> int {
        self.pos as int
    }

    /// Whether the last playlist was still live.
    pub closed spec fn live(&self) -> bool {
        self.live
    }

    /// The queue holds positions of the last playlist, and no more of them
    /// have been handed out than it holds.
    pub closed spec fn wf(&self) -> bool {
        &&& self.pos <= self.queue@.len()
        &&& forall|k: int| 0 <= k < self.queue@.len() ==> (#[trigger] self.queue@[k]) < self.seqs@.len()
    }

    /// A recording that has taken nothing and read no playlist.
    pub fn new() -> (r: Self)
        ensures
            r.wf(),
            r.seen() == Set::<u64>::empty(),
            !r.any_recorded(),
            r.queue().len() == 0,
            r.position() == 0,
    {
        LiveRecorder { seen: SeenSequences::new(), any: false, seqs: Vec::new(), queue: Vec::new(), pos: 0, live: true }
    }

    /// Hands out the next queued position, taking its sequence number.
    fn advance(&mut self) -> (r: LiveAction)
        requires
            old(self).wf(),
        ensures
            final(self).wf(),
            next_action_is(r, old(self).queue(), old(self).position(), old(self).live(), old(self).any_recorded()),
            final(self).any_recorded() == old(self).any_recorded(),
            final(self).sequences() == old(self).sequences(),
            final(self).queue() == old(self).queue(),
            final(self).live() == old(self).live(),
            old(self).position() < old(self).queue().len() ==> final(self).position() == old(self).position() + 1
                && final(self).seen() == old(self).seen().insert(
                    old(self).sequences()[old(self).queue()[old(self).position()]]),
            old(self).position() >= old(self).queue().len() ==> final(self).position() == old(self).position()
                && final(self).seen() == old(self).seen(),
    {
        if self.pos < self.queue.len() {
            let i = self.queue[self.pos];
            self.seen.insert(self.seqs[i]);
            self.pos = self.pos + 1;
            LiveAction::Fetch(i)
        } else if self.live {
            LiveAction::Poll
        } else {
            self.end()
        }
    }

    /// The action that ends the recording.
    fn end(&self) -> (r: LiveAction)
        ensures
            end_action_is(r, self.any_recorded()),
    {
        if self.any {
            LiveAction::Finish
        } else {
            LiveAction::Fail(String::from_str("No segments recorded"))
        }
    }

    /// The playlist was read again (the sequence numbers of its segments, in
    /// order): its segments whose sequence number was not taken yet are
    /// queued, in order, and the first of them is fetched.
    pub fn on_playlist(&mut self, sequences: &Vec<u64>, is_live: bool) -> (r: LiveAction)
        requires
            old(self).wf(),
        ensures
            final(self).wf(),
            final(self).sequences() == sequences@,
            final(self).queue() == fresh_positions(old(self).seen(), sequences@),
            final(self).live() == is_live,
            final(self).any_recorded() == old(self).any_recorded(),
            next_action_is(r, final(self).queue(), 0, is_live, old(self).any_recorded()),
            final(self).queue().len() > 0 ==> final(self).position() == 1
                && final(self).seen() == old(self).seen().insert(sequences@[final(self).queue()[0]]),
            final(self).queue().len() == 0 ==> final(self).position() == 0 && final(self).seen() == old(self).seen(),
    {
        let ghost seqs = sequences@;
        let ghost all = Seq::new(seqs.len(), |i: int| i);
        let ghost pred = |i: int| !self.seen@.contains(seqs[i]);
        let mut s: Vec<u64> = Vec::new();
        let mut q: Vec<usize> = Vec::new();
        let mut i: usize = 0;
        while i < sequences.len()
            invariant
                i <= sequences@.len(),
                seqs == sequences@,
                all == Seq::new(seqs.len(), |i: int| i),
                pred == (|i: int| !self.seen@.contains(seqs[i])),
                s@ == seqs.take(i as int),
                q@.map_values(|k: usize| k as int) == all.take(i as int).filter(pred),
                forall|k: int| 0 <= k < q@.len() ==> (#[trigger] q@[k]) < i,
            decreases sequences@.len() - i,
        {
            proof {
                reveal_with_fuel(Seq::<int>::filter, 1);
                assert(all.take(i + 1).drop_last() =~= all.take(i as int));
                assert(all.take(i + 1).last() == i as int);
            }
            let n = sequences[i];
            if !self.seen.contains(n) {
                q.push(i);
            }
            s.push(n);
            proof {
                assert(q@.map_values(|k: usize| k as int) =~= all.take(i + 1).filter(pred));
                assert(s@ =~= seqs.take(i + 1));
            }
            i = i + 1;
        }
        proof {
            assert(all.take(sequences@.len() as int) =~= all);
            assert(s@ =~= seqs);
        }
        self.seqs = s;
        self.queue = q;
        self.pos = 0;
        self.live = is_live;
        self.advance()
    }

    /// The segment last handed out was fetched (`ok`) or failed: the next
    /// queued segment is fetched, or the playlist is polled again, or the
    /// recording ends.
    pub fn on_segment(&mut self, ok: bool) -> (r: LiveAction)
        requires
            old(self).wf(),
        ensures
            final(self).wf(),
            final(self).any_recorded() == (old(self).any_recorded() || ok),
            next_action_is(r, old(self).queue(), old(self).position(), old(self).live(), old(self).any_recorded() || ok),
            final(self).sequences() == old(self).sequences(),
            final(self).queue() == old(self).queue(),
            old(self).position() < old(self).queue().len() ==> final(self).position() == old(self).position() + 1
                && final(self).seen() == old(self).seen().insert(
                    old(self).sequences()[old(self).queue()[old(self).position()]]),
            old(self).position() >= old(self).queue().len() ==> final(self).seen() == old(self).seen(),
    {
        if ok {
            self.any = true;
        }
        self.advance()
    }

    /// The job was cancelled: the recording ends.
    pub fn on_cancel(&self) -> (r: LiveAction)
        ensures
            end_action_is(r, self.any_recorded()),
    {
        self.end()
    }
}

/// A refreshed playlist queues no segment whose sequence number was taken
/// before, and every segment it does not queue was taken before.
pub proof fn law_live_queue_skips_taken(seen: Set<u64>, seqs: Seq<u64>)
    ensures
        forall|k: int| 0 <= k < fresh_positions(seen, seqs).len() ==>
            0 <= #[trigger] fresh_positions(seen, seqs)[k] < seqs.len()
            && !seen.contains(seqs[fresh_positions(seen, seqs)[k]]),
        forall|i: int| 0 <= i < seqs.len() && !fresh_positions(seen, seqs).contains(i) ==> seen.contains(#[trigger] seqs[i]),
{
    broadcast use vstd::seq_lib::group_filter_ensures;
    let all = Seq::new(seqs.len(), |i: int| i);
    let pred = |i: int| !seen.contains(seqs[i]);
    let f = fresh_positions(seen, seqs);
    assert forall|k: int| 0 <= k < f.len() implies
        0 <= #[trigger] f[k] < seqs.len() && !seen.contains(seqs[f[k]]) by {
        assert(all.filter(pred).contains(f[k]));
        all.lemma_filter_contains_rev(pred, f[k]);
        let j = choose|j: int| 0 <= j < all.len() && all[j] == f[k];
        assert(pred(f[k]));
    }
    assert forall|i: int| 0 <= i < seqs.len() && !fresh_positions(seen, seqs).contains(i) implies
        seen.contains(#[trigger] seqs[i]) by {
        if !seen.contains(seqs[i]) {
            assert(pred(all[i]));
            all.lemma_filter_contains(pred, i);
        }
    }
}

/// The sequence numbers at `positions` of `seqs`.
pub open spec fn sequences_at(seqs: Seq<u64>, positions: Seq<int>) -> Set<u64> {
    Set::new(|x: u64| exists|k: int| 0 <= k < positions.len() && seqs[positions[k]] == x)
}

/// Each live segment is taken once: once the segments that a refresh queues
/// are taken, the same playlist queues nothing more, and what was taken before
/// stays taken.
pub proof fn law_live_segments_taken_once(seen: Set<u64>, seqs: Seq<u64>)
    ensures
        ({
            let after = seen.union(sequences_at(seqs, fresh_positions(seen, seqs)));
            &&& fresh_positions(after, seqs).len() == 0
            &&& seen.subset_of(after)
        }),
{
    broadcast use vstd::seq_lib::group_filter_ensures;
    let all = Seq::new(seqs.len(), |i: int| i);
    let pred = |i: int| !seen.contains(seqs[i]);
    let fresh = fresh_positions(seen, seqs);
    let after = seen.union(sequences_at(seqs, fresh));
    let pred2 = |i: int| !after.contains(seqs[i]);
    assert forall|k: int| 0 <= k < all.len() implies !pred2(#[trigger] all[k]) by {
        if !seen.contains(seqs[k]) {
            assert(pred(all[k]));
            all.lemma_filter_contains(pred, k);
            let j = choose|j: int| 0 <= j < fresh.len() && fresh[j] == all[k];
            assert(seqs[fresh[j]] == seqs[k]);
            assert(sequences_at(seqs, fresh).contains(seqs[k]));
        }
    }
    assert(all.all(|x: int| !pred2(x)));
    all.lemma_all_neg_filter_empty(pred2);
}

} // verus!
