//! The decoder actor's serialized core: a FIFO mailbox bound to one media
//! source, served one request at a time.

use vstd::prelude::*;

use crate::frame::MediaError;
use crate::frame::MediaSource;
use crate::frame::VideoFrame;

verus! {

/// The most requests the mailbox holds at once; a sender finding it full
/// waits for room instead of losing the request.
pub const MAILBOX_CAPACITY: usize = 32;

/// The request/response core of a decoder actor: one exclusively owned
/// media source and the FIFO mailbox of accepted, not yet answered request
/// times.
///
/// The asynchronous shell around this core only moves messages. Accepted
/// requests enter in arrival order and `step` serves exactly the front one,
/// so at most one media-source call is in flight at any time and replies
/// leave in request order, however long each decode takes.
pub struct DecoderActor<S: MediaSource> {
    source: S,
    pending: Vec<u64>,
}

impl<S: MediaSource> DecoderActor<S> {
    /// The media source this actor serializes access to.
    pub closed spec fn spec_source(self) -> S {
        self.source
    }

    /// The accepted, not yet answered request times, oldest first.
    pub closed spec fn spec_pending(self) -> Seq<u64> {
        self.pending@
    }

    /// The mailbox respects its capacity and every queued request lies in
    /// the source's panic-freedom domain.
    pub open spec fn wf(self) -> bool {
        &&& self.spec_pending().len() <= MAILBOX_CAPACITY
        &&& forall|i: int|
            0 <= i < self.spec_pending().len() ==> #[trigger] self.spec_source().valid_request(
                self.spec_pending()[i],
            )
    }

    /// Bind an actor core to the media source it will exclusively own.
    pub fn new(source: S) -> (a: Self)
        ensures
            a.wf(),
            a.spec_pending().len() == 0,
            a.spec_source() == source,
    {
        Self { source, pending: Vec::new() }
    }

    /// Offer a request to the mailbox: accepted exactly when there is room.
    /// A caller of the asynchronous shell suspends on a full mailbox and
    /// offers again; the core itself never drops an accepted request.
    pub fn try_send(&mut self, time: u64) -> (accepted: bool)
        requires
            old(self).wf(),
            old(self).spec_source().valid_request(time),
        ensures
            final(self).wf(),
            final(self).spec_source() == old(self).spec_source(),
            accepted <==> old(self).spec_pending().len() < MAILBOX_CAPACITY,
            accepted ==> final(self).spec_pending() == old(self).spec_pending().push(time),
            !accepted ==> final(self).spec_pending() == old(self).spec_pending(),
    {
        if self.pending.len() < MAILBOX_CAPACITY {
            self.pending.push(time);
            true
        } else {
            false
        }
    }

    /// Serve exactly the front request, if any: pull it from the mailbox,
    /// invoke the source synchronously, and hand back the request time with
    /// its result. A decode failure is one request's answer; it leaves the
    /// actor and every other request untouched.
    pub fn step(&mut self) -> (r: Option<(u64, Result<VideoFrame, MediaError>)>)
        requires
            old(self).wf(),
        ensures
            final(self).wf(),
            forall|u: u64| #[trigger]
                final(self).spec_source().valid_request(u) == old(
                    self,
                ).spec_source().valid_request(u),
            forall|u: u64, res: Result<VideoFrame, MediaError>| #[trigger]
                final(self).spec_source().frame_spec(u, res) == old(self).spec_source().frame_spec(
                    u,
                    res,
                ),
            match r {
                None => {
                    &&& old(self).spec_pending().len() == 0
                    &&& final(self).spec_pending() == old(self).spec_pending()
                    &&& final(self).spec_source() == old(self).spec_source()
                },
                Some((t, res)) => {
                    &&& old(self).spec_pending().len() > 0
                    &&& t == old(self).spec_pending()[0]
                    &&& final(self).spec_pending() == old(self).spec_pending().drop_first()
                    &&& old(self).spec_source().frame_spec(t, res)
                },
            },
    {
        if self.pending.len() == 0 {
            None
        } else {
            proof {
                assert(old(self).spec_source().valid_request(old(self).spec_pending()[0]));
            }
            let time = self.pending.remove(0);
            proof {
                assert(self.spec_pending() =~= old(self).spec_pending().drop_first());
            }
            let result = self.source.get_frame_at(time);
            proof {
                assert forall|i: int|
                    0 <= i < self.spec_pending().len() implies #[trigger] self.spec_source().valid_request(
                    self.spec_pending()[i],
                ) by {
                    assert(old(self).spec_source().valid_request(old(self).spec_pending()[i + 1]));
                    assert(self.spec_source().valid_request(self.spec_pending()[i]) == old(
                        self,
                    ).spec_source().valid_request(self.spec_pending()[i]));
                }
            }
            Some((time, result))
        }
    }

    /// Serve every queued request, oldest first. The replies pair each
    /// accepted request time with its one result, in exactly the order the
    /// requests were accepted: reply `i` is for request `i`, whatever each
    /// decode did.
    pub fn drain(&mut self) -> (replies: Vec<(u64, Result<VideoFrame, MediaError>)>)
        requires
            old(self).wf(),
        ensures
            final(self).wf(),
            final(self).spec_pending().len() == 0,
            replies@.len() == old(self).spec_pending().len(),
            forall|i: int|
                0 <= i < replies@.len() ==> (#[trigger] replies@[i]).0 == old(
                    self,
                ).spec_pending()[i],
            forall|i: int|
                0 <= i < replies@.len() ==> old(self).spec_source().frame_spec(
                    (#[trigger] replies@[i]).0,
                    replies@[i].1,
                ),
    {
        let mut replies: Vec<(u64, Result<VideoFrame, MediaError>)> = Vec::new();
        while self.pending.len() != 0
            invariant
                self.wf(),
                replies@.len() + self.spec_pending().len() == old(self).spec_pending().len(),
                self.spec_pending() == old(self).spec_pending().skip(replies@.len() as int),
                forall|u: u64| #[trigger]
                    self.spec_source().valid_request(u) == old(self).spec_source().valid_request(
                        u,
                    ),
                forall|u: u64, res: Result<VideoFrame, MediaError>| #[trigger]
                    self.spec_source().frame_spec(u, res) == old(self).spec_source().frame_spec(
                        u,
                        res,
                    ),
                forall|i: int|
                    0 <= i < replies@.len() ==> (#[trigger] replies@[i]).0 == old(
                        self,
                    ).spec_pending()[i],
                forall|i: int|
                    0 <= i < replies@.len() ==> old(self).spec_source().frame_spec(
                        (#[trigger] replies@[i]).0,
                        replies@[i].1,
                    ),
            decreases self.spec_pending().len(),
        {
            let ghost done = replies@.len() as int;
            match self.step() {
                None => {
                    proof {
                        assert(false);
                    }
                },
                Some(reply) => {
                    proof {
                        assert(old(self).spec_pending().skip(done)[0] == old(
                            self,
                        ).spec_pending()[done]);
                        assert(old(self).spec_pending().skip(done).drop_first() =~= old(
                            self,
                        ).spec_pending().skip(done + 1));
                    }
                    replies.push(reply);
                },
            }
        }
        replies
    }

    /// Close the mailbox without serving what is left in it: the actor goes
    /// to its terminated state and every still-queued request observes
    /// `MediaError::ActorTerminated` as its one terminal outcome, in
    /// arrival order.
    pub fn terminate(self) -> (outcomes: Vec<(u64, MediaError)>)
        ensures
            outcomes@.len() == self.spec_pending().len(),
            forall|i: int|
                0 <= i < outcomes@.len() ==> #[trigger] outcomes@[i] == (
                    self.spec_pending()[i],
                    MediaError::ActorTerminated,
                ),
    {
        let mut outcomes: Vec<(u64, MediaError)> = Vec::new();
        let mut k: usize = 0;
        while k < self.pending.len()
            invariant
                k <= self.pending@.len(),
                outcomes@.len() == k,
                forall|i: int|
                    0 <= i < k ==> #[trigger] outcomes@[i] == (
                        self.pending@[i],
                        MediaError::ActorTerminated,
                    ),
            decreases self.pending@.len() - k,
        {
            outcomes.push((self.pending[k], MediaError::ActorTerminated));
            k = k + 1;
        }
        outcomes
    }
}

} // verus!
