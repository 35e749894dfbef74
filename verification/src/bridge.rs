//! The bridge's shared state and its connection state machine.
//!
//! `BridgeState` is the single shared object of the design: the capture
//! entry points and the control-loop decisions are its methods, all pure
//! state transitions.  The embedding program owns the sockets and the clock;
//! it reports connect results, read bytes, write results and the current
//! monotonic time in milliseconds, and performs the actions the methods
//! decide (pass bytes through, write a drained queue, forward to the peer).

use crate::codec::{
    copy_range, encode, push_all, spec_encode, spec_frames, spec_has_frame, spec_remainder,
    MAX_PAYLOAD, TAG_KEEPALIVE, TAG_TO_APP, TAG_TO_PEER,
};
use vstd::prelude::*;

verus! {

/// Minimum delay between two connect attempts while disconnected.
pub const RECONNECT_INTERVAL_MS: u64 = 3000;

/// Interval at which keep-alive frames are sent while connected.
pub const PING_INTERVAL_MS: u64 = 5000;

/// Period of the control loop's poll tick.
pub const POLL_INTERVAL_MS: u64 = 10;

/// The bytes destined to the monitored application's inbound path:
/// the payloads of the `R`-tagged frames, concatenated in order.
pub open spec fn spec_app_bytes(frames: Seq<(u8, Seq<u8>)>) -> Seq<u8>
    decreases frames.len(),
{
    if frames.len() == 0 {
        Seq::empty()
    } else {
        spec_app_bytes(frames.drop_last()) + (if frames.last().0 == TAG_TO_APP {
            frames.last().1
        } else {
            Seq::empty()
        })
    }
}

/// The bytes destined to the real downstream peer: the payloads of the
/// `S`-tagged frames, concatenated in order.  Keep-alive and unknown tags
/// contribute nothing.
pub open spec fn spec_peer_bytes(frames: Seq<(u8, Seq<u8>)>) -> Seq<u8>
    decreases frames.len(),
{
    if frames.len() == 0 {
        Seq::empty()
    } else {
        spec_peer_bytes(frames.drop_last()) + (if frames.last().0 == TAG_TO_PEER {
            frames.last().1
        } else {
            Seq::empty()
        })
    }
}

proof fn lemma_route_snoc(fs: Seq<(u8, Seq<u8>)>, f: (u8, Seq<u8>))
    ensures
        spec_app_bytes(fs.push(f)) == spec_app_bytes(fs) + (if f.0 == TAG_TO_APP {
            f.1
        } else {
            Seq::<u8>::empty()
        }),
        spec_peer_bytes(fs.push(f)) == spec_peer_bytes(fs) + (if f.0 == TAG_TO_PEER {
            f.1
        } else {
            Seq::<u8>::empty()
        }),
{
    assert(fs.push(f).drop_last() =~= fs);
    assert(fs.push(f).last() == f);
}

/// The bridge's whole shared state: connection flags, the two forwarding
/// queues, the partial-frame read buffer, and the two timers.
pub struct BridgeState {
    /// True while the control connection is present and presumed healthy.
    pub connected: bool,
    /// True while the embedding program holds a control socket.
    pub has_control: bool,
    /// True while a real downstream peer connection is attached.
    pub has_downstream: bool,
    /// Bytes awaiting delivery to the monitored application, strict FIFO.
    pub inbound: Vec<u8>,
    /// Already-framed bytes awaiting a write to the control socket.
    pub outbound: Vec<u8>,
    /// Bytes read from the control socket that do not yet form a frame.
    pub recv_buf: Vec<u8>,
    /// Time of the last keep-alive (or of the connect), in milliseconds.
    pub last_ping_ms: u64,
    /// Time of the last connect attempt, in milliseconds.
    pub last_attempt_ms: u64,
    /// False until the very first connect attempt, which is immediate.
    pub ever_attempted: bool,
}

/// Both connection flags and the downstream flag agree.
pub open spec fn same_links(a: BridgeState, b: BridgeState) -> bool {
    &&& a.connected == b.connected
    &&& a.has_control == b.has_control
    &&& a.has_downstream == b.has_downstream
}

/// Both timers and the first-attempt flag agree.
pub open spec fn same_timers(a: BridgeState, b: BridgeState) -> bool {
    &&& a.last_ping_ms == b.last_ping_ms
    &&& a.last_attempt_ms == b.last_attempt_ms
    &&& a.ever_attempted == b.ever_attempted
}

/// A connect attempt is due: disconnected, and either no attempt was ever
/// made or the reconnect interval has passed since the last one.
pub open spec fn spec_reconnect_due(s: BridgeState, now_ms: u64) -> bool {
    &&& !s.connected
    &&& (!s.ever_attempted || now_ms >= s.last_attempt_ms + RECONNECT_INTERVAL_MS)
}

/// A keep-alive is due: connected, and the ping interval has passed since
/// the last keep-alive (or since the connect).
pub open spec fn spec_ping_due(s: BridgeState, now_ms: u64) -> bool {
    &&& s.connected
    &&& now_ms >= s.last_ping_ms + PING_INTERVAL_MS
}

impl BridgeState {
    /// Well-formedness: a healthy connection implies a socket is held, and
    /// the read buffer never retains a complete, undecoded frame.
    pub open spec fn wf(self) -> bool {
        &&& self.connected ==> self.has_control
        &&& !spec_has_frame(self.recv_buf@)
    }

    /// A fresh bridge: disconnected, queues empty, no attempt made yet.
    pub fn new() -> (s: BridgeState)
        ensures
            s.wf(),
            !s.connected,
            !s.has_control,
            !s.has_downstream,
            s.inbound@ == Seq::<u8>::empty(),
            s.outbound@ == Seq::<u8>::empty(),
            s.recv_buf@ == Seq::<u8>::empty(),
            s.last_ping_ms == 0,
            s.last_attempt_ms == 0,
            !s.ever_attempted,
    {
        BridgeState {
            connected: false,
            has_control: false,
            has_downstream: false,
            inbound: Vec::new(),
            outbound: Vec::new(),
            recv_buf: Vec::new(),
            last_ping_ms: 0,
            last_attempt_ms: 0,
            ever_attempted: false,
        }
    }

    /// Records whether a real downstream peer connection is attached.
    pub fn set_downstream(&mut self, present: bool)
        requires
            old(self).wf(),
        ensures
            final(self).wf(),
            final(self).has_downstream == present,
            final(self).connected == old(self).connected,
            final(self).has_control == old(self).has_control,
            final(self).inbound@ == old(self).inbound@,
            final(self).outbound@ == old(self).outbound@,
            final(self).recv_buf@ == old(self).recv_buf@,
            same_timers(*old(self), *final(self)),
    {
        self.has_downstream = present;
    }

    /// Wraps `raw` in one frame and appends it to the outbound queue — but
    /// only while connected; while disconnected the state is untouched and
    /// the caller leaves the traffic on its original path.
    pub fn append_outbound(&mut self, tag: u8, raw: &Vec<u8>)
        requires
            old(self).wf(),
            raw@.len() <= MAX_PAYLOAD,
        ensures
            final(self).wf(),
            old(self).connected ==> {
                &&& final(self).outbound@ == old(self).outbound@ + spec_encode(tag, raw@)
                &&& final(self).inbound@ == old(self).inbound@
                &&& final(self).recv_buf@ == old(self).recv_buf@
                &&& same_links(*old(self), *final(self))
                &&& same_timers(*old(self), *final(self))
            },
            !old(self).connected ==> *final(self) == *old(self),
    {
        if self.connected {
            let framed = encode(tag, raw);
            push_all(&mut self.outbound, &framed);
        }
    }

    /// Appends already-unframed payload bytes to the inbound queue, to be
    /// delivered to the application in FIFO order.
    pub fn append_inbound(&mut self, raw: &Vec<u8>)
        ensures
            final(self).inbound@ == old(self).inbound@ + raw@,
            final(self).outbound@ == old(self).outbound@,
            final(self).recv_buf@ == old(self).recv_buf@,
            same_links(*old(self), *final(self)),
            same_timers(*old(self), *final(self)),
    {
        push_all(&mut self.inbound, raw);
    }

    /// Capture entry point for bytes the application tried to send.  While
    /// connected they are framed with the downstream tag and queued for the
    /// agent ("stolen"); while disconnected nothing changes and the caller
    /// lets them flow to the real downstream peer unmodified.
    pub fn on_application_send(&mut self, data: &Vec<u8>) -> (stolen: bool)
        requires
            old(self).wf(),
            data@.len() <= MAX_PAYLOAD,
        ensures
            final(self).wf(),
            stolen == old(self).connected,
            stolen ==> {
                &&& final(self).outbound@ == old(self).outbound@ + spec_encode(TAG_TO_PEER, data@)
                &&& final(self).inbound@ == old(self).inbound@
                &&& final(self).recv_buf@ == old(self).recv_buf@
                &&& same_links(*old(self), *final(self))
                &&& same_timers(*old(self), *final(self))
            },
            !stolen ==> *final(self) == *old(self),
    {
        let stolen = self.connected;
        self.append_outbound(TAG_TO_PEER, data);
        stolen
    }

    /// Capture entry point for bytes the application just received from the
    /// real peer.  While connected a copy is framed with the application tag
    /// and queued for the agent; while disconnected nothing changes.  Note
    /// the deliberate asymmetry with the send path: sent bytes are stolen
    /// from the real peer, while received bytes are captured as a copy after
    /// the real receive has already completed.
    pub fn on_application_receive(&mut self, data: &Vec<u8>) -> (captured: bool)
        requires
            old(self).wf(),
            data@.len() <= MAX_PAYLOAD,
        ensures
            final(self).wf(),
            captured == old(self).connected,
            captured ==> {
                &&& final(self).outbound@ == old(self).outbound@ + spec_encode(TAG_TO_APP, data@)
                &&& final(self).inbound@ == old(self).inbound@
                &&& final(self).recv_buf@ == old(self).recv_buf@
                &&& same_links(*old(self), *final(self))
                &&& same_timers(*old(self), *final(self))
            },
            !captured ==> *final(self) == *old(self),
    {
        let captured = self.connected;
        self.append_outbound(TAG_TO_APP, data);
        captured
    }

    /// Hands the application up to `max` queued inbound bytes: always the
    /// front of the queue, so delivery is strict FIFO.
    pub fn take_inbound(&mut self, max: usize) -> (out: Vec<u8>)
        requires
            old(self).wf(),
        ensures
            final(self).wf(),
            ({
                let k = if max <= old(self).inbound@.len() {
                    max as int
                } else {
                    old(self).inbound@.len() as int
                };
                &&& out@ == old(self).inbound@.subrange(0, k)
                &&& final(self).inbound@ == old(self).inbound@.skip(k)
            }),
            final(self).outbound@ == old(self).outbound@,
            final(self).recv_buf@ == old(self).recv_buf@,
            same_links(*old(self), *final(self)),
            same_timers(*old(self), *final(self)),
    {
        let k = if max <= self.inbound.len() {
            max
        } else {
            self.inbound.len()
        };
        let out = copy_range(&self.inbound, 0, k);
        let tail = self.inbound.split_off(k);
        self.inbound = tail;
        assert(old(self).inbound@.subrange(k as int, old(self).inbound@.len() as int)
            =~= old(self).inbound@.skip(k as int));
        out
    }

    /// Atomically empties the outbound queue and returns its bytes, for one
    /// write attempt; on failure the caller restores them unchanged.
    pub fn drain_outbound(&mut self) -> (out: Vec<u8>)
        requires
            old(self).wf(),
        ensures
            final(self).wf(),
            out@ == old(self).outbound@,
            final(self).outbound@ == Seq::<u8>::empty(),
            final(self).inbound@ == old(self).inbound@,
            final(self).recv_buf@ == old(self).recv_buf@,
            same_links(*old(self), *final(self)),
            same_timers(*old(self), *final(self)),
    {
        let out = self.outbound.split_off(0);
        assert(old(self).outbound@.subrange(0, 0) =~= Seq::<u8>::empty());
        assert(old(self).outbound@.subrange(0, old(self).outbound@.len() as int) =~= old(
            self,
        ).outbound@);
        out
    }

    /// Puts bytes whose write failed back at the front of the outbound
    /// queue: they precede anything queued since the drain, so nothing is
    /// lost and nothing is reordered.
    pub fn restore_outbound(&mut self, unsent: &Vec<u8>)
        requires
            old(self).wf(),
        ensures
            final(self).wf(),
            final(self).outbound@ == unsent@ + old(self).outbound@,
            final(self).inbound@ == old(self).inbound@,
            final(self).recv_buf@ == old(self).recv_buf@,
            same_links(*old(self), *final(self)),
            same_timers(*old(self), *final(self)),
    {
        let mut fresh: Vec<u8> = Vec::new();
        push_all(&mut fresh, unsent);
        push_all(&mut fresh, &self.outbound);
        self.outbound = fresh;
        assert(Seq::<u8>::empty() + unsent@ + old(self).outbound@ =~= unsent@ + old(
            self,
        ).outbound@);
    }

    /// Any read or write failure on the control socket: back to Disconnected.
    /// Both queues survive so nothing is lost; only the stale partial frame
    /// from the dead connection is dropped, since it can never complete.
    pub fn on_disconnect(&mut self)
        requires
            old(self).wf(),
        ensures
            final(self).wf(),
            !final(self).connected,
            !final(self).has_control,
            final(self).has_downstream == old(self).has_downstream,
            final(self).inbound@ == old(self).inbound@,
            final(self).outbound@ == old(self).outbound@,
            final(self).recv_buf@ == Seq::<u8>::empty(),
            same_timers(*old(self), *final(self)),
    {
        self.connected = false;
        self.has_control = false;
        self.recv_buf.clear();
    }

    /// Whether a connect attempt is due now.
    pub fn reconnect_due(&self, now_ms: u64) -> (due: bool)
        ensures
            due == spec_reconnect_due(*self, now_ms),
    {
        !self.connected && (!self.ever_attempted || (now_ms >= self.last_attempt_ms && now_ms
            - self.last_attempt_ms >= RECONNECT_INTERVAL_MS))
    }

    /// Records the outcome of a connect attempt made now.  Success enters
    /// Connected and resets the keep-alive timer; failure stays Disconnected.
    /// Either way the attempt time is recorded, which throttles the next
    /// attempt, and both queues are untouched.
    pub fn on_connect_attempt(&mut self, now_ms: u64, success: bool)
        requires
            old(self).wf(),
            spec_reconnect_due(*old(self), now_ms),
        ensures
            final(self).wf(),
            final(self).connected == success,
            final(self).has_control == success,
            final(self).has_downstream == old(self).has_downstream,
            final(self).last_attempt_ms == now_ms,
            final(self).ever_attempted,
            success ==> final(self).last_ping_ms == now_ms,
            !success ==> final(self).last_ping_ms == old(self).last_ping_ms,
            final(self).inbound@ == old(self).inbound@,
            final(self).outbound@ == old(self).outbound@,
            final(self).recv_buf@ == old(self).recv_buf@,
    {
        self.last_attempt_ms = now_ms;
        self.ever_attempted = true;
        if success {
            self.connected = true;
            self.has_control = true;
            self.last_ping_ms = now_ms;
        } else {
            self.connected = false;
            self.has_control = false;
        }
    }

    /// Whether a keep-alive frame is due now.
    pub fn ping_due(&self, now_ms: u64) -> (due: bool)
        ensures
            due == spec_ping_due(*self, now_ms),
    {
        self.connected && now_ms >= self.last_ping_ms && now_ms - self.last_ping_ms
            >= PING_INTERVAL_MS
    }

    /// Records the outcome of writing a keep-alive frame now: success resets
    /// the keep-alive timer, failure is a control-socket write failure and
    /// forces the Disconnected transition.
    pub fn on_ping_result(&mut self, now_ms: u64, success: bool)
        requires
            old(self).wf(),
        ensures
            final(self).wf(),
            success ==> {
                &&& final(self).last_ping_ms == now_ms
                &&& final(self).last_attempt_ms == old(self).last_attempt_ms
                &&& final(self).ever_attempted == old(self).ever_attempted
                &&& same_links(*old(self), *final(self))
                &&& final(self).inbound@ == old(self).inbound@
                &&& final(self).outbound@ == old(self).outbound@
                &&& final(self).recv_buf@ == old(self).recv_buf@
            },
            !success ==> {
                &&& !final(self).connected
                &&& !final(self).has_control
                &&& final(self).has_downstream == old(self).has_downstream
                &&& final(self).inbound@ == old(self).inbound@
                &&& final(self).outbound@ == old(self).outbound@
                &&& final(self).recv_buf@ == Seq::<u8>::empty()
                &&& same_timers(*old(self), *final(self))
            },
    {
        if success {
            self.last_ping_ms = now_ms;
        } else {
            self.on_disconnect();
        }
    }

    /// Routes one read's worth of control-socket bytes.  The bytes join any
    /// partial frame kept from earlier reads; every frame completed by them
    /// is taken, in order: `R` payloads go to the inbound queue, `S` payloads
    /// are returned for the caller to forward to the real downstream peer,
    /// and keep-alive or unknown-tag frames are consumed with no effect.
    /// Whatever does not yet form a frame stays buffered for the next read.
    pub fn on_control_read(&mut self, data: &Vec<u8>) -> (forward: Vec<u8>)
        requires
            old(self).wf(),
        ensures
            final(self).wf(),
            ({
                let total = old(self).recv_buf@ + data@;
                let fs = spec_frames(total);
                &&& final(self).inbound@ == old(self).inbound@ + spec_app_bytes(fs)
                &&& forward@ == spec_peer_bytes(fs)
                &&& final(self).recv_buf@ == spec_remainder(total)
            }),
            final(self).outbound@ == old(self).outbound@,
            same_links(*old(self), *final(self)),
            same_timers(*old(self), *final(self)),
    {
        push_all(&mut self.recv_buf, data);
        let ghost total = self.recv_buf@;
        let mut forward: Vec<u8> = Vec::new();
        let mut pos: usize = 0;
        let ghost mut done: Seq<(u8, Seq<u8>)> = Seq::empty();
        proof {
            assert(total.skip(0) =~= total);
            assert(done + spec_frames(total) =~= spec_frames(total));
            assert(spec_app_bytes(done) =~= Seq::<u8>::empty());
            assert(spec_peer_bytes(done) =~= Seq::<u8>::empty());
            assert(self.inbound@ =~= old(self).inbound@ + spec_app_bytes(done));
        }
        loop
            invariant
                pos <= self.recv_buf@.len(),
                self.recv_buf@ == total,
                spec_frames(total) == done + spec_frames(total.skip(pos as int)),
                spec_remainder(total) == spec_remainder(total.skip(pos as int)),
                self.inbound@ == old(self).inbound@ + spec_app_bytes(done),
                forward@ == spec_peer_bytes(done),
                self.outbound@ == old(self).outbound@,
                same_links(*old(self), *self),
                same_timers(*old(self), *self),
            ensures
                pos <= self.recv_buf@.len(),
                self.recv_buf@ == total,
                !spec_has_frame(total.skip(pos as int)),
                spec_frames(total) == done + spec_frames(total.skip(pos as int)),
                spec_remainder(total) == spec_remainder(total.skip(pos as int)),
                self.inbound@ == old(self).inbound@ + spec_app_bytes(done),
                forward@ == spec_peer_bytes(done),
                self.outbound@ == old(self).outbound@,
                same_links(*old(self), *self),
                same_timers(*old(self), *self),
            decreases total.len() - pos,
        {
            match crate::codec::decode_at(&self.recv_buf, pos) {
                None => {
                    break;
                },
                Some(f) => {
                    let (tag, payload, consumed) = f;
                    if tag == TAG_TO_APP {
                        self.append_inbound(&payload);
                    } else if tag == TAG_TO_PEER {
                        push_all(&mut forward, &payload);
                    }
                    proof {
                        let s = total.skip(pos as int);
                        let fr = (crate::codec::spec_tag(s), crate::codec::spec_payload(s));
                        lemma_route_snoc(done, fr);
                        assert(s.skip(crate::codec::spec_consumed(s)) =~= total.skip(
                            pos + consumed,
                        ));
                        assert(spec_frames(s) == seq![fr] + spec_frames(total.skip(pos + consumed)));
                        assert(done + spec_frames(s) =~= done.push(fr) + spec_frames(
                            total.skip(pos + consumed),
                        ));
                        assert(spec_remainder(s) == spec_remainder(total.skip(pos + consumed)));
                        done = done.push(fr);
                        assert(old(self).inbound@ + spec_app_bytes(done.drop_last()) + (if fr.0
                            == TAG_TO_APP {
                            fr.1
                        } else {
                            Seq::<u8>::empty()
                        }) =~= old(self).inbound@ + spec_app_bytes(done));
                    }
                    let buf_len = self.recv_buf.len();
                    assert(pos + consumed <= buf_len);
                    pos = pos + consumed;
                },
            }
        }
        let tail = self.recv_buf.split_off(pos);
        self.recv_buf = tail;
        proof {
            assert(total.subrange(pos as int, total.len() as int) =~= total.skip(pos as int));
            assert(spec_frames(total.skip(pos as int)) =~= Seq::<(u8, Seq<u8>)>::empty());
            assert(spec_frames(total) =~= done);
            assert(spec_remainder(total.skip(pos as int)) == total.skip(pos as int));
        }
        forward
    }

    /// Records a failed write of drained outbound bytes: the bytes return to
    /// the front of the queue and the bridge drops to Disconnected.
    pub fn on_write_failed(&mut self, unsent: &Vec<u8>)
        requires
            old(self).wf(),
        ensures
            final(self).wf(),
            !final(self).connected,
            !final(self).has_control,
            final(self).has_downstream == old(self).has_downstream,
            final(self).outbound@ == unsent@ + old(self).outbound@,
            final(self).inbound@ == old(self).inbound@,
            final(self).recv_buf@ == Seq::<u8>::empty(),
            same_timers(*old(self), *final(self)),
    {
        self.restore_outbound(unsent);
        self.on_disconnect();
    }
}

/// The zero-length keep-alive frame: the keep-alive tag and a zero length.
pub fn keepalive_frame() -> (v: Vec<u8>)
    ensures
        v@ == spec_encode(TAG_KEEPALIVE, Seq::<u8>::empty()),
        v@.len() == 3,
{
    let empty: Vec<u8> = Vec::new();
    encode(TAG_KEEPALIVE, &empty)
}

/// Law: keep-alives fire no sooner than the ping interval after the previous
/// keep-alive (or the connect), and the first poll tick on which one is due
/// lies at most one poll interval beyond it.
pub proof fn lemma_keepalive_spacing(s: BridgeState, t_prev: u64, t_now: u64)
    requires
        s.last_ping_ms <= t_prev <= t_now,
        t_now - t_prev <= POLL_INTERVAL_MS,
        !spec_ping_due(s, t_prev),
        spec_ping_due(s, t_now),
    ensures
        PING_INTERVAL_MS <= t_now - s.last_ping_ms <= PING_INTERVAL_MS + POLL_INTERVAL_MS,
{
}

/// Law: once an attempt has been made, a further connect attempt becomes due
/// only when at least the reconnect interval has passed since the last one.
pub proof fn lemma_reconnect_spacing(s: BridgeState, now_ms: u64)
    requires
        s.ever_attempted,
        spec_reconnect_due(s, now_ms),
    ensures
        now_ms - s.last_attempt_ms >= RECONNECT_INTERVAL_MS,
{
}

} // verus!
