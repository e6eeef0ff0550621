//! The decisions of the arbiter that owns the emulator: routing folded
//! indications, correlating run tags with their requesters, and queueing
//! operations for the emulator's input.

use vstd::prelude::*;

use base64::Engine;
use rand::RngCore;
use std::collections::VecDeque;

use crate::b3270::indication::RunResult;
use crate::b3270::operation::{Action, Run};
use crate::b3270::{Indication, InitializeIndication, Operation};
use crate::tracker::{
    after, disposition_of, is_snapshot, passed_on, push_char, Disposition, Tracker, TrackerView,
};

verus! {

/// What base64's standard engine makes of some bytes.
pub uninterp spec fn base64_of(b: Seq<u8>) -> Seq<char>;

/// Relies on `base64::engine::general_purpose::STANDARD.encode`: the
/// padded base64 text of the bytes, a function of the bytes alone.
#[verifier::external_body]
fn base64_encode(b: &Vec<u8>) -> (r: String)
    requires
        b@.len() <= 1024,
    ensures
        r@ == base64_of(b@),
{
    base64::engine::general_purpose::STANDARD.encode(b)
}

/// Relies on `rand::thread_rng().next_u64()`: some random number.
#[verifier::external_body]
fn random_u64() -> u64 {
    rand::thread_rng().next_u64()
}

/// Relies on bytes' `Buf::chunk` for `VecDeque<u8>`: the front slice of the
/// deque, or its back slice when the front one is empty; so a prefix of the
/// contents, empty only when they are.
#[verifier::external_body]
fn front_chunk<'a>(buf: &'a VecDeque<u8>) -> (r: &'a [u8])
    ensures
        r@.len() <= buf@.len(),
        r@ == buf@.subrange(0, r@.len() as int),
        buf@.len() > 0 ==> r@.len() > 0,
{
    bytes::Buf::chunk(buf)
}

/// Relies on bytes' `Buf::advance` for `VecDeque<u8>`: drains the first `n`
/// bytes.
#[verifier::external_body]
fn advance_front(buf: &mut VecDeque<u8>, n: usize)
    requires
        n <= old(buf)@.len(),
    ensures
        final(buf)@ == old(buf)@.subrange(n as int, old(buf)@.len() as int),
{
    bytes::Buf::advance(buf, n)
}

/// The base64 text of the bytes of `x`, followed by `n` letters `A`.
pub open spec fn padded_tag(x: u64, n: nat) -> Seq<char> {
    base64_of(le_bytes(x)) + Seq::new(n, |i: int| 'A')
}

/// The eight bytes of `x`, least significant first.
pub open spec fn le_bytes(x: u64) -> Seq<u8> {
    Seq::new(8, |i: int| ((x >> ((8 * i) as u64)) & 0xFF) as u8)
}

/// The eight bytes of `x`, least significant first.
pub fn to_le_bytes(x: u64) -> (r: Vec<u8>)
    ensures
        r@ == le_bytes(x),
{
    let mut r: Vec<u8> = Vec::new();
    let mut i: u64 = 0;
    while i < 8
        invariant
            i <= 8,
            r@ == le_bytes(x).take(i as int),
        decreases 8 - i,
    {
        r.push(((x >> (8 * i)) & 0xFF) as u8);
        i += 1;
        assert(r@ =~= le_bytes(x).take(i as int));
    }
    assert(le_bytes(x).take(8) =~= le_bytes(x));
    r
}

/// The run tags that wait for a result, each with the sink of its
/// requester.
pub struct ResponseMap<S> {
    entries: Vec<(String, S)>,
}

/// The tags of a list of entries.
pub open spec fn tags_of<S>(entries: Seq<(String, S)>) -> Seq<Seq<char>> {
    entries.map_values(|e: (String, S)| e.0@)
}

/// No two entries share a tag.
pub open spec fn tags_unique(tags: Seq<Seq<char>>) -> bool {
    forall|i: int, j: int| 0 <= i < j < tags.len() ==> #[trigger] tags[i] != #[trigger] tags[j]
}

impl<S> View for ResponseMap<S> {
    type V = Seq<(String, S)>;

    closed spec fn view(&self) -> Seq<(String, S)> {
        self.entries@
    }
}

impl<S> ResponseMap<S> {
    /// Whether some entry has the tag.
    pub open spec fn has(&self, tag: Seq<char>) -> bool {
        tags_of(self@).contains(tag)
    }

    /// An empty map.
    pub fn new() -> (r: ResponseMap<S>)
        ensures
            r@ == Seq::<(String, S)>::empty(),
    {
        ResponseMap { entries: Vec::new() }
    }

    /// The number of outstanding entries.
    pub fn len(&self) -> (r: usize)
        ensures
            r == self@.len(),
    {
        self.entries.len()
    }

    /// Whether some entry has the tag.
    pub fn contains(&self, tag: &String) -> (r: bool)
        ensures
            r == self.has(tag@),
    {
        let mut i: usize = 0;
        while i < self.entries.len()
            invariant
                i <= self@.len(),
                forall|k: int| 0 <= k < i ==> tags_of(self@)[k] != tag@,
            decreases self@.len() - i,
        {
            if self.entries[i].0 == *tag {
                assert(tags_of(self@)[i as int] == tag@);
                return true;
            }
            i += 1;
        }
        false
    }

    /// Records a sink under a tag that no entry has.
    pub fn insert(&mut self, tag: String, sink: S)
        requires
            !old(self).has(tag@),
        ensures
            final(self)@ == old(self)@.push((tag, sink)),
            tags_unique(tags_of(old(self)@)) ==> tags_unique(tags_of(final(self)@)),
    {
        self.entries.push((tag, sink));
        proof {
            assert(tags_of(self@) =~= tags_of(old(self)@).push(tag@));
        }
    }

    /// Takes out the sink recorded under the tag, if any.
    pub fn remove(&mut self, tag: &String) -> (r: Option<S>)
        requires
            tags_unique(tags_of(old(self)@)),
        ensures
            tags_unique(tags_of(final(self)@)),
            match r {
                Some(sink) => exists|i: int|
                    0 <= i < old(self)@.len() && old(self)@[i].0@ == tag@ && old(self)@[i].1 == sink
                        && final(self)@ == old(self)@.remove(i),
                None => !old(self).has(tag@) && final(self)@ == old(self)@,
            },
            !final(self).has(tag@),
    {
        let mut i: usize = 0;
        while i < self.entries.len()
            invariant
                i <= self@.len(),
                *self == *old(self),
                tags_unique(tags_of(old(self)@)),
                forall|k: int| 0 <= k < i ==> tags_of(self@)[k] != tag@,
            decreases self@.len() - i,
        {
            if self.entries[i].0 == *tag {
                let ghost before = self@;
                assert(tags_unique(tags_of(before)));
                let (_, sink) = self.entries.remove(i);
                proof {
                    assert forall|a: int, b: int| 0 <= a < b < tags_of(self@).len() implies tags_of(
                        self@,
                    )[a] != tags_of(self@)[b] by {
                        let a0 = if a < i { a } else { a + 1 };
                        let b0 = if b < i { b } else { b + 1 };
                        assert(tags_of(self@)[a] == tags_of(before)[a0]);
                        assert(tags_of(self@)[b] == tags_of(before)[b0]);
                        assert(tags_of(before)[a0] != tags_of(before)[b0]);
                    }
                    assert(tags_of(self@) =~= tags_of(before).remove(i as int));
                    assert forall|k: int| 0 <= k < tags_of(self@).len() implies tags_of(self@)[k]
                        != tag@ by {
                        if k < i {
                            assert(tags_of(self@)[k] == tags_of(before)[k]);
                        } else {
                            assert(tags_of(self@)[k] == tags_of(before)[k + 1]);
                            assert(tags_of(before)[i as int] == tag@);
                            assert(tags_of(before)[i as int] != tags_of(before)[k + 1]);
                        }
                    }
                }
                return Some(sink);
            }
            i += 1;
        }
        None
    }
}

/// Where a folded indication goes.
pub enum Routed<S> {
    /// To every client, as passed on by the tracker.
    Broadcast(Indication),
    /// Nowhere.
    Dropped,
    /// The result of a run, to the sink that waits for its tag.
    Deliver(S, RunResult),
    /// The result of a run whose tag nobody waits for.
    Unclaimed(RunResult),
}

/// The type of the runs that the arbiter sends.
pub const RUN_TYPE: &'static str = "keymap";

/// The number of random tags drawn before a tag is made unique by
/// lengthening.
pub const TAG_DRAWS: u32 = 16;

/// The operation that runs `actions` under `tag`.
pub fn run_operation(tag: String, actions: Vec<Action>) -> (r: Operation)
    ensures
        r matches Operation::Run(run) && run.r_tag == Some(tag) && run.type_ is Some && run.type_->0@
            == RUN_TYPE@ && run.actions == actions,
{
    Operation::Run(Run { r_tag: Some(tag), type_: Some(String::from_str(RUN_TYPE)), actions })
}

/// The state of the arbiter: the tracker, the bytes waiting for the
/// emulator's input, and the outstanding run requests.
pub struct ArbiterCore<S> {
    tracker: Tracker,
    write_buf: VecDeque<u8>,
    responses: ResponseMap<S>,
}

impl<S> ArbiterCore<S> {
    /// The tracker's state.
    pub closed spec fn tracker_view(&self) -> TrackerView {
        self.tracker@
    }

    /// The static elements that the tracker keeps.
    pub closed spec fn statics(&self) -> Seq<InitializeIndication> {
        self.tracker.static_items()
    }

    /// The bytes waiting for the emulator's input.
    pub closed spec fn pending(&self) -> Seq<u8> {
        self.write_buf@
    }

    /// The outstanding run requests.
    pub closed spec fn outstanding(&self) -> Seq<(String, S)> {
        self.responses@
    }

    /// The invariant: a well-formed tracker, and no two outstanding requests
    /// with the same tag.
    pub closed spec fn wf(&self) -> bool {
        &&& self.tracker.wf()
        &&& tags_unique(tags_of(self.responses@))
    }

    /// A fresh arbiter whose input queue starts with `initial` (for example
    /// the encoded initial actions).
    pub fn new(initial: Vec<u8>) -> (r: ArbiterCore<S>)
        ensures
            r.wf(),
            r.tracker_view() == crate::tracker::initial_view(),
            r.pending() == initial@,
            r.outstanding().len() == 0,
            tags_unique(tags_of(r.outstanding())),
    {
        let mut write_buf: VecDeque<u8> = VecDeque::new();
        let mut i: usize = 0;
        while i < initial.len()
            invariant
                i <= initial@.len(),
                write_buf@ == initial@.take(i as int),
            decreases initial@.len() - i,
        {
            write_buf.push_back(initial[i]);
            i += 1;
            assert(write_buf@ =~= initial@.take(i as int));
        }
        assert(initial@.take(i as int) =~= initial@);
        let r = ArbiterCore { tracker: Tracker::default(), write_buf, responses: ResponseMap::new() };
        assert(tags_of(r.responses@) =~= Seq::<Seq<char>>::empty());
        r
    }

    /// Folds an indication from the emulator into the tracker and routes
    /// it: broadcast, dropped, or handed to the requester of its run tag,
    /// whose entry is then removed.
    pub fn on_indication(&mut self, ind: Indication) -> (r: Routed<S>)
        requires
            old(self).wf(),
        ensures
            final(self).wf(),
            tags_unique(tags_of(final(self).outstanding())),
            final(self).tracker_view() == after(old(self).tracker_view(), ind),
            final(self).pending() == old(self).pending(),
            disposition_of(ind) is Broadcast ==> r == Routed::<S>::Broadcast(
                passed_on(old(self).tracker_view(), ind),
            ) && final(self).outstanding() == old(self).outstanding(),
            disposition_of(ind) is Drop ==> r is Dropped && final(self).outstanding() == old(
                self,
            ).outstanding(),
            disposition_of(ind) matches Disposition::Direct(tag) ==> match r {
                Routed::Deliver(sink, rr) => ind == Indication::RunResult(rr) && exists|i: int|
                    0 <= i < old(self).outstanding().len() && old(self).outstanding()[i].0@ == tag@
                        && old(self).outstanding()[i].1 == sink && final(self).outstanding() == old(
                        self,
                    ).outstanding().remove(i),
                Routed::Unclaimed(rr) => ind == Indication::RunResult(rr) && !tags_of(
                    old(self).outstanding(),
                ).contains(tag@) && final(self).outstanding() == old(self).outstanding(),
                _ => false,
            },
    {
        let ghost received = ind;
        let mut ind = ind;
        let d = self.tracker.handle_indication(&mut ind);
        assert(ind == passed_on(old(self).tracker_view(), received));
        assert(d == disposition_of(received));
        match d {
            Disposition::Broadcast => {
                assert(self.responses == old(self).responses);
                Routed::Broadcast(ind)
            },
            Disposition::Drop => Routed::Dropped,
            Disposition::Direct(tag) => {
                assert(received is RunResult);
                assert(ind == received);
                match ind {
                    Indication::RunResult(rr) => {
                        assert(received == Indication::RunResult(rr));
                        assert(rr.r_tag == Some(tag));
                        let ghost before = self.responses@;
                        assert(before == old(self).outstanding());
                        match self.responses.remove(&tag) {
                            Some(sink) => {
                                assert(exists|i: int|
                                    0 <= i < before.len() && before[i].0@ == tag@ && before[i].1
                                        == sink && self.responses@ == before.remove(i));
                                Routed::Deliver(sink, rr)
                            },
                            None => {
                                assert(!tags_of(before).contains(tag@));
                                Routed::Unclaimed(rr)
                            },
                        }
                    },
                    _ => Routed::Dropped,
                }
            },
        }
    }

    /// The resync snapshot of the tracker.
    pub fn snapshot(&self) -> (r: Vec<Indication>)
        requires
            self.wf(),
        ensures
            is_snapshot(self.tracker_view(), self.statics(), r@),
    {
        self.tracker.get_init_indication()
    }

    /// A run tag that no outstanding request has: the base64 text of 64
    /// random bits, drawn again on a collision up to `TAG_DRAWS` times; after
    /// that many collisions the last draw is lengthened with `A`s until it is
    /// longer than every outstanding tag.
    pub fn fresh_tag(&self) -> (r: String)
        ensures
            !tags_of(self.outstanding()).contains(r@),
            exists|x: u64, n: nat| r@ == #[trigger] padded_tag(x, n),
    {
        let mut draws: u32 = 0;
        while draws < TAG_DRAWS
            decreases TAG_DRAWS - draws,
        {
            let x = random_u64();
            let tag = base64_encode(&to_le_bytes(x));
            if !self.responses.contains(&tag) {
                assert(tag@ =~= padded_tag(x, 0));
                return tag;
            }
            draws += 1;
        }
        // Collisions this many times in a row do not happen in practice;
        // a tag longer than every outstanding one is unique all the same.
        let mut longest: usize = 0;
        let mut i: usize = 0;
        while i < self.responses.entries.len()
            invariant
                i <= self.outstanding().len(),
                forall|k: int| 0 <= k < i ==> #[trigger] self.outstanding()[k].0@.len() <= longest,
            decreases self.outstanding().len() - i,
        {
            let n = self.responses.entries[i].0.as_str().unicode_len();
            if n > longest {
                longest = n;
            }
            i += 1;
        }
        let x = random_u64();
        let mut tag = base64_encode(&to_le_bytes(x));
        let ghost mut n: nat = 0;
        assert(tag@ =~= padded_tag(x, 0));
        while tag.as_str().unicode_len() <= longest
            invariant
                forall|k: int|
                    0 <= k < self.outstanding().len() ==> #[trigger] self.outstanding()[k].0@.len()
                        <= longest,
                tag@ == padded_tag(x, n),
            decreases longest + 1 - tag@.len(),
        {
            push_char(&mut tag, 'A');
            proof {
                assert(padded_tag(x, n + 1) =~= padded_tag(x, n).push('A'));
                n = n + 1;
            }
        }
        proof {
            assert forall|k: int| 0 <= k < tags_of(self.outstanding()).len() implies tags_of(
                self.outstanding(),
            )[k] != tag@ by {
                assert(tags_of(self.outstanding())[k] == self.outstanding()[k].0@);
            }
        }
        tag
    }

    /// Queues the encoded line of a run operation, followed by a newline,
    /// and records `sink` as waiting for the result under `tag`.
    pub fn queue_run(&mut self, tag: String, line: &Vec<u8>, sink: S)
        requires
            old(self).wf(),
            !tags_of(old(self).outstanding()).contains(tag@),
        ensures
            final(self).wf(),
            tags_unique(tags_of(final(self).outstanding())),
            final(self).tracker_view() == old(self).tracker_view(),
            final(self).statics() == old(self).statics(),
            final(self).pending() == old(self).pending() + line@ + seq![10u8],
            final(self).outstanding() == old(self).outstanding().push((tag, sink)),
    {
        let mut i: usize = 0;
        while i < line.len()
            invariant
                i <= line@.len(),
                self.wf(),
                self.tracker == old(self).tracker,
                self.responses == old(self).responses,
                self.write_buf@ == old(self).write_buf@ + line@.take(i as int),
            decreases line@.len() - i,
        {
            self.write_buf.push_back(line[i]);
            i += 1;
            assert(self.write_buf@ =~= old(self).write_buf@ + line@.take(i as int));
        }
        self.write_buf.push_back(10u8);
        assert(line@.take(i as int) =~= line@);
        self.responses.insert(tag, sink);
    }

    /// The bytes that can be written to the emulator next: a prefix of the
    /// pending bytes, empty only when none are pending.
    pub fn pending_chunk(&self) -> (r: &[u8])
        ensures
            r@ == self.pending().subrange(0, r@.len() as int),
            self.pending().len() > 0 ==> r@.len() > 0,
    {
        front_chunk(&self.write_buf)
    }

    /// Drops the first `n` pending bytes, which the emulator has taken.
    pub fn consume(&mut self, n: usize)
        requires
            old(self).wf(),
            n <= old(self).pending().len(),
        ensures
            final(self).wf(),
            final(self).tracker_view() == old(self).tracker_view(),
            final(self).statics() == old(self).statics(),
            final(self).outstanding() == old(self).outstanding(),
            final(self).pending() == old(self).pending().subrange(
                n as int,
                old(self).pending().len() as int,
            ),
    {
        advance_front(&mut self.write_buf, n);
    }

    /// Whether bytes wait for the emulator's input.
    pub fn has_pending(&self) -> (r: bool)
        ensures
            r == (self.pending().len() > 0),
    {
        self.write_buf.len() > 0
    }
}

} // verus!
