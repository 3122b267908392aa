//! The capture-to-packet pipeline: captured PCM bytes go into a bounded
//! drop-oldest ring, and every full chunk of the ring becomes one VBAN
//! packet with the next frame counter.
use crate::ring::{drop_oldest_push, ByteRing};
use crate::vban::{build_packet, get_sr_index, sr_index_of, vban_packet};
use vstd::prelude::*;

verus! {

/// The most sample frames one VBAN packet carries.
pub const MAX_VBAN_FRAMES: usize = 256;

/// How a capture stream is cut into VBAN packets.
pub struct StreamPlan {
    /// Channels of the captured audio.
    pub channels: u16,
    /// Bytes per captured frame: 16-bit samples when the device accepted
    /// them, 32-bit float samples otherwise.
    pub src_bytes_per_frame: usize,
    /// Bytes per frame in a VBAN packet (16-bit samples).
    pub vban_bytes_per_frame: usize,
    /// Sample frames per VBAN packet.
    pub vban_frames: usize,
    /// Payload bytes per VBAN packet.
    pub chunk: usize,
    /// VBAN sample-rate index of the capture rate.
    pub sr_index: u8,
    /// The captured samples are 32-bit floats that must be converted.
    pub is_float: bool,
}

impl StreamPlan {
    /// The plan describes a stream that can be packetised: at least one
    /// channel, 16-bit frames, at most `MAX_VBAN_FRAMES` frames a packet.
    pub open spec fn wf(&self) -> bool {
        &&& self.channels > 0
        &&& self.src_bytes_per_frame == self.channels * (if self.is_float { 4int } else { 2int })
        &&& self.vban_bytes_per_frame == 2 * self.channels
        &&& self.vban_frames <= MAX_VBAN_FRAMES
        &&& self.chunk == self.vban_frames * self.vban_bytes_per_frame
        &&& self.sr_index < 21
    }
}

/// Frames per packet: the requested size when one was given, else the
/// device buffer size, capped at `MAX_VBAN_FRAMES` either way.
pub open spec fn frames_per_packet(bufsize: usize, buffer_frames: usize) -> nat {
    let want = if bufsize > 0 { bufsize } else { buffer_frames };
    if want < MAX_VBAN_FRAMES { want as nat } else { MAX_VBAN_FRAMES as nat }
}

/// Law: a requested packet size is used as it is, up to the VBAN maximum of
/// 256 frames, which larger requests get; without a request (0) the device
/// buffer size is used in the same way. So the frames per packet never
/// exceed 256 or the size they come from, are never 0 when that size is
/// not, and a larger request never gives fewer frames.
pub proof fn law_frames_per_packet(bufsize: usize, buffer_frames: usize, other: usize)
    ensures
        1 <= bufsize <= 256 ==> frames_per_packet(bufsize, buffer_frames) == bufsize,
        bufsize >= 256 ==> frames_per_packet(bufsize, buffer_frames) == 256,
        bufsize == 0 && buffer_frames <= 256 ==> frames_per_packet(bufsize, buffer_frames) == buffer_frames,
        bufsize == 0 && buffer_frames >= 256 ==> frames_per_packet(bufsize, buffer_frames) == 256,
        frames_per_packet(bufsize, buffer_frames) <= 256,
        bufsize > 0 ==> frames_per_packet(bufsize, buffer_frames) <= bufsize
            && frames_per_packet(bufsize, buffer_frames) >= 1
            && frames_per_packet(bufsize, buffer_frames) == frames_per_packet(bufsize, other),
        0 < bufsize <= other ==> frames_per_packet(bufsize, buffer_frames) <= frames_per_packet(other, buffer_frames),
{
}

/// Works out the packet layout for a capture at `sample_rate` Hz with
/// `channels` channels; `s16` says whether the device accepted 16-bit
/// integer samples (else it delivers 32-bit floats). `bufsize` is the
/// requested frames per packet (0: use the device buffer of
/// `buffer_frames` frames).
pub fn plan_stream(sample_rate: u32, channels: u16, s16: bool, bufsize: usize, buffer_frames: usize) -> (plan: StreamPlan)
    ensures
        plan.channels == channels,
        plan.src_bytes_per_frame == channels * (if s16 { 2int } else { 4int }),
        plan.vban_bytes_per_frame == 2 * channels,
        plan.vban_frames == frames_per_packet(bufsize, buffer_frames),
        bufsize > 0 && bufsize <= MAX_VBAN_FRAMES ==> plan.vban_frames == bufsize,
        bufsize > MAX_VBAN_FRAMES ==> plan.vban_frames == MAX_VBAN_FRAMES,
        bufsize == 0 && buffer_frames <= MAX_VBAN_FRAMES ==> plan.vban_frames == buffer_frames,
        bufsize == 0 && buffer_frames > MAX_VBAN_FRAMES ==> plan.vban_frames == MAX_VBAN_FRAMES,
        plan.chunk == plan.vban_frames * plan.vban_bytes_per_frame,
        plan.sr_index == sr_index_of(sample_rate),
        plan.is_float == !s16,
        channels > 0 ==> plan.wf(),
{
    let ch = channels as usize;
    let src_bps: usize = if s16 { 2 } else { 4 };
    let src_bpf = ch * src_bps;
    let vban_bpf = ch * 2;
    let want = if bufsize > 0 { bufsize } else { buffer_frames };
    let vban_frames = if want < MAX_VBAN_FRAMES { want } else { MAX_VBAN_FRAMES };
    assert(vban_frames * vban_bpf <= 256 * 131070) by (nonlinear_arith)
        requires vban_frames <= 256, vban_bpf <= 131070;
    let chunk = vban_frames * vban_bpf;
    let sr_index = get_sr_index(sample_rate);
    StreamPlan {
        channels,
        src_bytes_per_frame: src_bpf,
        vban_bytes_per_frame: vban_bpf,
        vban_frames,
        chunk,
        sr_index,
        is_float: !s16,
    }
}

/// The abstract state of a `Streamer`.
pub struct StreamerView {
    /// Bytes waiting to be sent, oldest first.
    pub ring: Seq<u8>,
    /// The most bytes the ring holds.
    pub limit: nat,
    /// The stream name.
    pub name: Seq<char>,
    /// VBAN sample-rate index.
    pub sr_index: u8,
    /// Channels of the stream.
    pub channels: u16,
    /// Bytes per captured frame.
    pub src_bytes_per_frame: nat,
    /// Bytes per VBAN frame.
    pub bytes_per_frame: nat,
    /// Frames per packet.
    pub frames: nat,
    /// Payload bytes per packet.
    pub chunk: nat,
    /// Counter that the next packet carries.
    pub frame_counter: u32,
    /// Payload bytes sent so far (wrapping).
    pub total_bytes: u64,
    /// Drops so far (wrapping).
    pub total_drops: u64,
}

/// Turns captured PCM bytes into VBAN packets.
pub struct Streamer {
    ring: ByteRing,
    stream: String,
    sr_index: u8,
    channels: u16,
    src_bytes_per_frame: usize,
    vban_bytes_per_frame: usize,
    vban_frames: usize,
    chunk: usize,
    frame_counter: u32,
    total_bytes: u64,
    total_drops: u64,
}

impl View for Streamer {
    type V = StreamerView;

    closed spec fn view(&self) -> StreamerView {
        StreamerView {
            ring: self.ring@,
            limit: self.ring.limit(),
            name: self.stream@,
            sr_index: self.sr_index,
            channels: self.channels,
            src_bytes_per_frame: self.src_bytes_per_frame as nat,
            bytes_per_frame: self.vban_bytes_per_frame as nat,
            frames: self.vban_frames as nat,
            chunk: self.chunk as nat,
            frame_counter: self.frame_counter,
            total_bytes: self.total_bytes,
            total_drops: self.total_drops,
        }
    }
}

/// The packet that carries `payload` for a streamer in state `s`.
pub open spec fn packet_for(s: StreamerView, payload: Seq<u8>) -> Seq<u8> {
    vban_packet(
        vstd::utf8::encode_utf8(s.name),
        s.sr_index,
        (s.channels % 256) as u8,
        s.frame_counter,
        s.frames as u16,
        payload,
    )
}

/// Law (what a packet says): the packet for state `s` carries the payload
/// after a 28-byte header that holds the streamer's sample-rate index in 5
/// bits, its frames per packet (at most 256) and its channels (each minus one, in one
/// byte), the first 15 bytes at most of its UTF-8 name and its frame counter
/// in little-endian order.
pub proof fn law_packet_for(s: StreamerView, payload: Seq<u8>)
    requires
        s.frames <= MAX_VBAN_FRAMES,
    ensures
        ({
            let p = packet_for(s, payload);
            let name = vstd::utf8::encode_utf8(s.name);
            let k = if name.len() < 15 { name.len() } else { 15 };
            &&& p.len() == 28 + payload.len()
            &&& p.skip(28) == payload
            &&& p[4] == s.sr_index % 32
            &&& (p[5] + 1) % 256 == s.frames % 256
            &&& (p[6] + 1) % 256 == s.channels % 256
            &&& p.subrange(8, 8 + k as int) == name.take(k as int)
            &&& p[24] + 256 * p[25] + 65536 * p[26] + 16777216 * p[27] == s.frame_counter
        }),
{
    let name = vstd::utf8::encode_utf8(s.name);
    crate::vban::law_packet_layout(name, s.sr_index, (s.channels % 256) as u8, s.frame_counter, s.frames as u16, payload);
    crate::vban::law_u32_le_bytes_decode(s.frame_counter);
    let p = packet_for(s, payload);
    assert(p.subrange(24, 28) == crate::vban::u32_le_bytes(s.frame_counter));
    assert(p[24] == p.subrange(24, 28)[0]);
    assert(p[25] == p.subrange(24, 28)[1]);
    assert(p[26] == p.subrange(24, 28)[2]);
    assert(p[27] == p.subrange(24, 28)[3]);
}

/// `t` is the state after `s` sent one packet with payload `payload`: the
/// oldest chunk of the ring, which leaves the ring; the frame counter and the
/// byte count advance (wrapping); nothing else changes.
pub open spec fn packet_step(s: StreamerView, t: StreamerView, payload: Seq<u8>) -> bool {
    &&& s.ring.len() >= s.chunk
    &&& payload == s.ring.take(s.chunk as int)
    &&& t == (StreamerView {
        ring: s.ring.skip(s.chunk as int),
        frame_counter: ((s.frame_counter + 1) % 0x1_0000_0000) as u32,
        total_bytes: ((s.total_bytes + s.chunk) % 0x1_0000_0000_0000_0000) as u64,
        ..s
    })
}

/// `t` is the state after `s` queued the captured bytes `data` with `drops`
/// drops: the ring changes as the drop-oldest policy says, with rounds of
/// one packet's payload, and the drops are added to the drop counter
/// (wrapping); nothing else changes.
pub open spec fn push_step(s: StreamerView, t: StreamerView, data: Seq<u8>, drops: nat) -> bool {
    &&& drop_oldest_push(s.ring, data, s.limit, s.chunk, t.ring, drops)
    &&& t == (StreamerView {
        ring: t.ring,
        total_drops: ((s.total_drops + drops) % 0x1_0000_0000_0000_0000) as u64,
        ..s
    })
}

/// One step of a streamer: captured bytes queued, or a packet sent.
pub enum StreamEvent {
    /// `data` was queued, with `drops` drops.
    Captured { data: Seq<u8>, drops: nat },
    /// A packet carrying `payload` was sent.
    Sent { payload: Seq<u8> },
}

/// `t` follows from `s` by the event `e`.
pub open spec fn event_step(s: StreamerView, t: StreamerView, e: StreamEvent) -> bool {
    match e {
        StreamEvent::Captured { data, drops } => push_step(s, t, data, drops),
        StreamEvent::Sent { payload } => packet_step(s, t, payload),
    }
}

/// The payloads of the packets sent in `events`, in order.
pub open spec fn sent_payloads(events: Seq<StreamEvent>) -> Seq<Seq<u8>>
    decreases events.len(),
{
    if events.len() == 0 {
        Seq::empty()
    } else {
        let prev = sent_payloads(events.drop_last());
        match events.last() {
            StreamEvent::Sent { payload } => prev.push(payload),
            StreamEvent::Captured { .. } => prev,
        }
    }
}

/// The bytes captured in `events`, in order.
pub open spec fn captured_bytes(events: Seq<StreamEvent>) -> Seq<u8>
    decreases events.len(),
{
    if events.len() == 0 {
        Seq::empty()
    } else {
        let prev = captured_bytes(events.drop_last());
        match events.last() {
            StreamEvent::Captured { data, .. } => prev + data,
            StreamEvent::Sent { .. } => prev,
        }
    }
}

/// The drops of `events`, added up.
pub open spec fn dropped_count(events: Seq<StreamEvent>) -> nat
    decreases events.len(),
{
    if events.len() == 0 {
        0
    } else {
        let prev = dropped_count(events.drop_last());
        match events.last() {
            StreamEvent::Captured { drops, .. } => prev + drops,
            StreamEvent::Sent { .. } => prev,
        }
    }
}

/// The parts concatenated in order.
pub open spec fn concat(parts: Seq<Seq<u8>>) -> Seq<u8>
    decreases parts.len(),
{
    if parts.len() == 0 {
        Seq::empty()
    } else {
        concat(parts.drop_last()) + parts.last()
    }
}

proof fn lemma_mod_add(a: int, b: int, m: int)
    requires
        m > 0,
    ensures
        ((a % m) + b) % m == (a + b) % m,
{
    vstd::arithmetic::div_mod::lemma_add_mod_noop(a % m, b, m);
    vstd::arithmetic::div_mod::lemma_mod_twice(a, m);
    vstd::arithmetic::div_mod::lemma_add_mod_noop(a, b, m);
}

/// Law (a whole run): over any run of captures and packets, starting from a
/// ring within its limit,
/// - the ring never holds more than its limit;
/// - the stream's name, format and limit never change;
/// - every packet carries exactly one packet's payload, and the packet sent
///   at step `i` carries the starting counter plus the number of packets
///   sent before it (wrapping), so the k-th packet carries counter k when
///   the streamer starts at 0;
/// - the counters end at the start values plus the packets sent, the
///   payload bytes sent and the drops (wrapping);
/// - when nothing was dropped, the payloads sent, followed by what is left
///   in the ring, are the bytes queued at the start followed by all bytes
///   captured, in order: nothing is reordered, duplicated or lost.
pub proof fn law_stream_run(states: Seq<StreamerView>, events: Seq<StreamEvent>)
    requires
        states.len() == events.len() + 1,
        states[0].ring.len() <= states[0].limit,
        forall|i: int| 0 <= i < events.len() ==> #[trigger] event_step(states[i], states[i + 1], events[i]),
    ensures
        forall|i: int| 0 <= i < states.len() ==> #[trigger] states[i].ring.len() <= states[i].limit,
        states.last() == (StreamerView {
            ring: states.last().ring,
            frame_counter: states.last().frame_counter,
            total_bytes: states.last().total_bytes,
            total_drops: states.last().total_drops,
            ..states[0]
        }),
        forall|k: int| 0 <= k < sent_payloads(events).len() ==> #[trigger] sent_payloads(events)[k].len() == states[0].chunk,
        forall|i: int| 0 <= i < events.len() && #[trigger] events[i] is Sent ==>
            states[i].frame_counter == (states[0].frame_counter + sent_payloads(events.take(i)).len()) % 0x1_0000_0000,
        states.last().frame_counter == (states[0].frame_counter + sent_payloads(events).len()) % 0x1_0000_0000,
        states.last().total_bytes == (states[0].total_bytes + sent_payloads(events).len() * states[0].chunk) % 0x1_0000_0000_0000_0000,
        states.last().total_drops == (states[0].total_drops + dropped_count(events)) % 0x1_0000_0000_0000_0000,
        dropped_count(events) == 0 ==> concat(sent_payloads(events)) + states.last().ring == states[0].ring + captured_bytes(events),
    decreases events.len(),
{
    let s0 = states[0];
    let n = events.len() as int;
    if n == 0 {
        assert(concat(sent_payloads(events)) == Seq::<u8>::empty());
        assert(captured_bytes(events) == Seq::<u8>::empty());
        assert(Seq::<u8>::empty() + s0.ring == s0.ring);
        assert(s0.ring + Seq::<u8>::empty() == s0.ring);
    } else {
        let ps = states.drop_last();
        let pe = events.drop_last();
        assert forall|i: int| 0 <= i < pe.len() implies #[trigger] event_step(ps[i], ps[i + 1], pe[i]) by {
            assert(event_step(states[i], states[i + 1], events[i]));
        }
        law_stream_run(ps, pe);
        let s = states[n - 1];
        let t = states[n];
        let e = events[n - 1];
        assert(ps.last() == s);
        assert(ps[0] == s0);
        assert(event_step(states[n - 1], states[(n - 1) + 1], events[n - 1]));
        assert(event_step(s, t, e));
        let prev_sent = sent_payloads(pe);
        let m: int = 0x1_0000_0000_0000_0000;
        let w: int = 0x1_0000_0000;
        assert(events.last() == e);
        match e {
            StreamEvent::Captured { data, drops } => {
                crate::ring::law_push_keeps_newest(s.ring, data, s.limit, s.chunk, t.ring, drops);
                assert(sent_payloads(events) == prev_sent);
                lemma_mod_add(s0.total_drops + dropped_count(pe), drops as int, m);
                if dropped_count(events) == 0 {
                    assert(drops == 0);
                    crate::ring::law_push_without_drops_appends(s.ring, data, s.limit, s.chunk, t.ring);
                    assert(concat(prev_sent) + t.ring == (concat(prev_sent) + s.ring) + data);
                    assert(s0.ring + captured_bytes(events) == (s0.ring + captured_bytes(pe)) + data);
                }
            },
            StreamEvent::Sent { payload } => {
                assert(sent_payloads(events) == prev_sent.push(payload));
                assert(sent_payloads(events).drop_last() == prev_sent);
                assert(concat(sent_payloads(events)) == concat(prev_sent) + payload);
                assert(dropped_count(events) == dropped_count(pe));
                assert(captured_bytes(events) == captured_bytes(pe));
                lemma_mod_add(s0.frame_counter + prev_sent.len(), 1, w);
                lemma_mod_add(s0.total_bytes + prev_sent.len() * s0.chunk, s0.chunk as int, m);
                assert(prev_sent.len() * s0.chunk + s0.chunk == (prev_sent.len() + 1) * s0.chunk) by (nonlinear_arith);
                if dropped_count(events) == 0 {
                    assert(s.ring.take(s.chunk as int) + s.ring.skip(s.chunk as int) == s.ring);
                    assert(concat(sent_payloads(events)) + t.ring == concat(prev_sent) + (payload + t.ring));
                }
            },
        }
        assert forall|k: int| 0 <= k < sent_payloads(events).len() implies #[trigger] sent_payloads(events)[k].len() == s0.chunk by {
            if k < prev_sent.len() {
                assert(sent_payloads(events)[k] == prev_sent[k]);
            }
        }
        assert forall|i: int| 0 <= i < events.len() && #[trigger] events[i] is Sent implies
            states[i].frame_counter == (s0.frame_counter + sent_payloads(events.take(i)).len()) % w by {
            if i < n - 1 {
                assert(pe[i] == events[i]);
                assert(pe.take(i) == events.take(i));
                assert(ps[i] == states[i]);
            } else {
                assert(events.take(i) == pe);
            }
        }
        assert forall|i: int| 0 <= i < states.len() implies #[trigger] states[i].ring.len() <= states[i].limit by {
            if i < n {
                assert(ps[i] == states[i]);
            }
        }
    }
}

impl Streamer {
    /// The streamer's state is consistent: the ring is within its limit and
    /// the packet layout is that of a well-formed plan.
    pub closed spec fn wf(&self) -> bool {
        &&& self.ring.wf()
        &&& self.channels > 0
        &&& self.vban_bytes_per_frame == 2 * self.channels
        &&& self.vban_frames <= MAX_VBAN_FRAMES
        &&& self.chunk == self.vban_frames * self.vban_bytes_per_frame
    }

    /// What `wf` gives callers in terms of the view.
    pub proof fn lemma_wf(&self)
        requires
            self.wf(),
        ensures
            self@.ring.len() <= self@.limit,
            self@.channels > 0,
            self@.bytes_per_frame == 2 * self@.channels,
            self@.frames <= MAX_VBAN_FRAMES,
            self@.chunk == self@.frames * self@.bytes_per_frame,
    {
    }

    /// A streamer for the stream `stream` laid out by `plan`, with a ring of
    /// `ring_capacity` bytes and all counters at zero.
    pub fn new(stream: String, plan: &StreamPlan, ring_capacity: usize) -> (s: Self)
        requires
            plan.wf(),
        ensures
            s.wf(),
            s@.ring == Seq::<u8>::empty(),
            s@.limit == ring_capacity,
            s@.name == stream@,
            s@.sr_index == plan.sr_index,
            s@.channels == plan.channels,
            s@.src_bytes_per_frame == plan.src_bytes_per_frame,
            s@.bytes_per_frame == plan.vban_bytes_per_frame,
            s@.frames == plan.vban_frames,
            s@.chunk == plan.chunk,
            s@.frame_counter == 0,
            s@.total_bytes == 0,
            s@.total_drops == 0,
    {
        Streamer {
            ring: ByteRing::with_capacity(ring_capacity),
            stream,
            sr_index: plan.sr_index,
            channels: plan.channels,
            src_bytes_per_frame: plan.src_bytes_per_frame,
            vban_bytes_per_frame: plan.vban_bytes_per_frame,
            vban_frames: plan.vban_frames,
            chunk: plan.chunk,
            frame_counter: 0,
            total_bytes: 0,
            total_drops: 0,
        }
    }

    /// Queues captured bytes. While they do not fit, the oldest queued
    /// bytes are discarded, one packet's payload per round (what is left in
    /// the last round, all of it when the payload size is 0); when the
    /// captured bytes alone overflow the ring, only their newest bytes are
    /// kept. Returns the number of drops, which is also added to the drop
    /// counter.
    pub fn push_capture(&mut self, data: &[u8]) -> (drops: u64)
        requires
            old(self).wf(),
        ensures
            final(self).wf(),
            push_step(old(self)@, final(self)@, data@, drops as nat),
    {
        let drops = self.ring.push_drop_oldest(data, self.chunk);
        self.total_drops = self.total_drops.wrapping_add(drops);
        drops
    }

    /// Bytes to handle for `frames` captured frames: none (`None`, stop
    /// reading) when no frame came or the device marked them silent, else
    /// the frames' length in captured bytes.
    pub fn capture_len(&self, frames: u32, silent: bool) -> (len: Option<usize>)
        requires
            self.wf(),
            frames * self@.src_bytes_per_frame <= usize::MAX,
        ensures
            len == (if frames > 0 && !silent { Some((frames * self@.src_bytes_per_frame) as usize) } else { None::<usize> }),
    {
        if frames > 0 && !silent {
            Some(frames as usize * self.src_bytes_per_frame)
        } else {
            None
        }
    }

    /// Bytes per captured frame.
    pub fn src_bytes_per_frame(&self) -> (n: usize)
        ensures
            n == self@.src_bytes_per_frame,
    {
        self.src_bytes_per_frame
    }

    /// When a full chunk is queued, takes it off the ring and returns it as
    /// the next VBAN packet, advancing the frame counter and the byte
    /// count; otherwise returns `None` and changes nothing.
    pub fn next_packet(&mut self) -> (pkt: Option<Vec<u8>>)
        requires
            old(self).wf(),
        ensures
            final(self).wf(),
            pkt is Some <==> old(self)@.ring.len() >= old(self)@.chunk,
            pkt is None ==> final(self)@ == old(self)@,
            pkt matches Some(p) ==> {
                &&& p@ == packet_for(old(self)@, old(self)@.ring.take(old(self)@.chunk as int))
                &&& packet_step(old(self)@, final(self)@, old(self)@.ring.take(old(self)@.chunk as int))
            },
    {
        if self.ring.len() < self.chunk {
            return None;
        }
        let pcm = self.ring.pop_front_n(self.chunk);
        proof {
            let f = self.vban_frames as int;
            let b = self.vban_bytes_per_frame as int;
            assert((f * b) / b == f) by (nonlinear_arith) requires b > 0, f >= 0;
            assert(f * b <= 256 * 131070) by (nonlinear_arith) requires 0 <= f <= 256, 0 <= b <= 131070;
        }
        let nb = (pcm.len() / self.vban_bytes_per_frame) as u16;
        let ch = (self.channels % 256) as u8;
        let pkt = build_packet(self.stream.as_str(), self.sr_index, ch, self.frame_counter, nb, pcm.as_slice());
        self.frame_counter = self.frame_counter.wrapping_add(1);
        self.total_bytes = self.total_bytes.wrapping_add(pcm.len() as u64);
        Some(pkt)
    }

    /// The counter that the next packet will carry.
    pub fn frame_counter(&self) -> (fc: u32)
        ensures
            fc == self@.frame_counter,
    {
        self.frame_counter
    }

    /// Payload bytes sent so far.
    pub fn total_bytes(&self) -> (n: u64)
        ensures
            n == self@.total_bytes,
    {
        self.total_bytes
    }

    /// Payload kibibytes sent so far, rounded down.
    pub fn total_kb(&self) -> (n: u64)
        ensures
            n == self@.total_bytes / 1024,
    {
        self.total_bytes / 1024
    }

    /// Drops so far.
    pub fn total_drops(&self) -> (n: u64)
        ensures
            n == self@.total_drops,
    {
        self.total_drops
    }

    /// Bytes waiting in the ring.
    pub fn ring_len(&self) -> (n: usize)
        ensures
            n == self@.ring.len(),
    {
        self.ring.len()
    }

    /// Payload bytes per packet.
    pub fn chunk(&self) -> (n: usize)
        ensures
            n == self@.chunk,
    {
        self.chunk
    }

    /// The most bytes the ring holds.
    pub fn ring_capacity(&self) -> (n: usize)
        ensures
            n == self@.limit,
    {
        self.ring.capacity()
    }
}

} // verus!
