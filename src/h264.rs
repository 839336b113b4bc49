//! H.264 RTP packetization (RFC 6184): Single NAL Unit mode for NAL units
//! that fit the MTU, FU-A fragmentation for larger ones.
use vstd::prelude::*;
use crate::rtp_packet::{RtpHeader, RtpPacket, PAYLOAD_TYPE_H264};
use crate::wire::push_all;
use vstd::arithmetic::div_mod::lemma_add_mod_noop_right;

verus! {

/// Largest RTP payload emitted, in bytes.
pub const MTU: usize = 1400;

/// Payload bytes of one FU-A fragment besides the FU indicator and header.
pub const FU_CHUNK: usize = MTU - 2;

/// NAL unit type of an FU-A fragmentation unit.
pub const FU_A_TYPE: u8 = 28;

/// The abstract state of a packetizer.
pub struct PacketizerView {
    pub sequence: u16,
    pub timestamp: u32,
    pub ssrc: u32,
    pub payload_type: u8,
}

/// `s + k` on the 16-bit sequence number circle.
pub open spec fn seq_add(s: u16, k: int) -> u16 {
    ((s + k) % 0x1_0000) as u16
}

/// `t + d` on the 32-bit timestamp circle.
pub open spec fn ts_add(t: u32, d: int) -> u32 {
    ((t + d) % 0x1_0000_0000) as u32
}

impl PacketizerView {
    /// The state after `n` packets were emitted.
    pub open spec fn advance(self, n: int) -> PacketizerView {
        PacketizerView { sequence: seq_add(self.sequence, n), ..self }
    }
}

/// FU indicator: the F and NRI bits of the NAL header, type 28.
pub open spec fn fu_indicator(nal_header: u8) -> u8 {
    (nal_header & 0xE0) | FU_A_TYPE
}

/// FU header: S and E bits, then the original NAL unit type.
pub open spec fn fu_header(nal_header: u8, start: bool, end: bool) -> u8 {
    (nal_header & 0x1F) | (if start { 0x80u8 } else { 0u8 }) | (if end { 0x40u8 } else { 0u8 })
}

/// Consecutive pieces of `body` of `size` bytes each, the last one shorter
/// or equal; a body of at most `size` bytes is one piece.
pub open spec fn fu_chunks(body: Seq<u8>, size: nat) -> Seq<Seq<u8>>
    decreases body.len(),
{
    if size == 0 || body.len() <= size {
        seq![body]
    } else {
        seq![body.take(size as int)] + fu_chunks(body.skip(size as int), size)
    }
}

/// The payload of the `i`-th of the FU-A fragments of `nalu`.
pub open spec fn fu_payload(nalu: Seq<u8>, mtu: nat, i: int) -> Seq<u8> {
    let cs = fu_chunks(nalu.drop_first(), (mtu - 2) as nat);
    seq![fu_indicator(nalu[0]), fu_header(nalu[0], i == 0, i == cs.len() - 1)] + cs[i]
}

/// The RTP payloads that carry `nalu` under a payload size limit of `mtu`.
pub open spec fn payloads(nalu: Seq<u8>, mtu: nat) -> Seq<Seq<u8>> {
    if nalu.len() == 0 {
        Seq::empty()
    } else if nalu.len() <= mtu {
        seq![nalu]
    } else {
        let n = fu_chunks(nalu.drop_first(), (mtu - 2) as nat).len();
        Seq::new(n, |i: int| fu_payload(nalu, mtu, i))
    }
}

/// Header of the `k`-th of `n` packets emitted from state `st`: all share
/// the timestamp, sequence numbers count up, only the last may be marked.
pub open spec fn header_at(st: PacketizerView, k: int, n: int, marker_on_last: bool) -> RtpHeader {
    RtpHeader {
        version: 2,
        padding: false,
        extension: false,
        csrc_count: 0,
        marker: marker_on_last && k == n - 1,
        payload_type: st.payload_type,
        sequence: seq_add(st.sequence, k),
        timestamp: st.timestamp,
        ssrc: st.ssrc,
    }
}

/// `out` is what packetizing `nalu` from state `st` yields.
pub open spec fn packetized(
    st: PacketizerView,
    nalu: Seq<u8>,
    mtu: nat,
    marker_on_last: bool,
    out: Seq<RtpPacket>,
) -> bool {
    &&& out.len() == payloads(nalu, mtu).len()
    &&& forall|k: int|
        0 <= k < out.len() ==> {
            &&& (#[trigger] out[k]).header == header_at(st, k, out.len() as int, marker_on_last)
            &&& out[k].payload@ == payloads(nalu, mtu)[k]
        }
}

/// Header and payload of each packet that carries `nalu` from state `st`.
pub open spec fn packets_of(st: PacketizerView, nalu: Seq<u8>, marker_on_last: bool, mtu: nat) -> Seq<
    (RtpHeader, Seq<u8>),
> {
    let ps = payloads(nalu, mtu);
    Seq::new(ps.len(), |k: int| (header_at(st, k, ps.len() as int, marker_on_last), ps[k]))
}

/// Header and payload of each packet.
pub open spec fn wire_view(ps: Seq<RtpPacket>) -> Seq<(RtpHeader, Seq<u8>)> {
    ps.map_values(|p: RtpPacket| (p.header, p.payload@))
}

/// The packets that carry each `(NAL unit, ends its access unit)` of
/// `units` in turn, starting from state `st`.
pub open spec fn stream_packets(st: PacketizerView, units: Seq<(Seq<u8>, bool)>, mtu: nat) -> Seq<
    (RtpHeader, Seq<u8>),
>
    decreases units.len(),
{
    if units.len() == 0 {
        Seq::empty()
    } else {
        let pre = stream_packets(st, units.drop_last(), mtu);
        pre + packets_of(st.advance(pre.len() as int), units.last().0, units.last().1, mtu)
    }
}

pub proof fn lemma_packetized_wire(
    st: PacketizerView,
    nalu: Seq<u8>,
    mtu: nat,
    marker_on_last: bool,
    out: Seq<RtpPacket>,
)
    requires
        packetized(st, nalu, mtu, marker_on_last, out),
    ensures
        wire_view(out) == packets_of(st, nalu, marker_on_last, mtu),
{
    assert(wire_view(out) =~= packets_of(st, nalu, marker_on_last, mtu));
}

proof fn lemma_payloads_nonempty(nalu: Seq<u8>, mtu: nat)
    requires
        nalu.len() > 0,
    ensures
        payloads(nalu, mtu).len() >= 1,
{
    if nalu.len() > mtu {
        let cs = fu_chunks(nalu.drop_first(), (mtu - 2) as nat);
        assert(cs.len() >= 1);
    }
}

/// All NAL units of `units` are non-empty.
pub open spec fn all_nonempty(units: Seq<(Seq<u8>, bool)>) -> bool {
    forall|i: int| 0 <= i < units.len() ==> (#[trigger] units[i]).0.len() > 0
}

/// Sequence law: packetizing a stream of non-empty NAL units numbers the
/// packets consecutively on the 16-bit circle, with at least one packet per
/// NAL unit.
pub proof fn lemma_stream_sequence(st: PacketizerView, units: Seq<(Seq<u8>, bool)>, mtu: nat)
    requires
        mtu >= 3,
        all_nonempty(units),
    ensures
        stream_packets(st, units, mtu).len() >= units.len(),
        forall|k: int|
            0 <= k < stream_packets(st, units, mtu).len() ==> (#[trigger] stream_packets(
                st,
                units,
                mtu,
            )[k]).0.sequence == seq_add(st.sequence, k),
    decreases units.len(),
{
    if units.len() > 0 {
        let rest = units.drop_last();
        assert forall|i: int| 0 <= i < rest.len() implies (#[trigger] rest[i]).0.len() > 0 by {
            assert(rest[i] == units[i]);
        }
        lemma_stream_sequence(st, rest, mtu);
        lemma_payloads_nonempty(units.last().0, mtu);
        let pre = stream_packets(st, rest, mtu);
        let ps = stream_packets(st, units, mtu);
        let n = pre.len() as int;
        assert forall|k: int| 0 <= k < ps.len() implies (#[trigger] ps[k]).0.sequence == seq_add(
            st.sequence,
            k,
        ) by {
            if k >= n {
                lemma_add_mod_noop_right(k - n, st.sequence + n, 0x1_0000);
            } else {
                assert(ps[k] == pre[k]);
            }
        }
    }
}

/// Packets of a run of NAL units are numbered consecutively on the 16-bit
/// circle from the state they started from.
pub proof fn lemma_stream_numbering(st: PacketizerView, units: Seq<(Seq<u8>, bool)>, mtu: nat)
    ensures
        forall|k: int|
            0 <= k < stream_packets(st, units, mtu).len() ==> (#[trigger] stream_packets(
                st,
                units,
                mtu,
            )[k]).0.sequence == seq_add(st.sequence, k),
    decreases units.len(),
{
    if units.len() > 0 {
        lemma_stream_numbering(st, units.drop_last(), mtu);
        let pre = stream_packets(st, units.drop_last(), mtu);
        let ps = stream_packets(st, units, mtu);
        let n = pre.len() as int;
        assert forall|k: int| 0 <= k < ps.len() implies (#[trigger] ps[k]).0.sequence == seq_add(
            st.sequence,
            k,
        ) by {
            if k >= n {
                lemma_add_mod_noop_right(k - n, st.sequence + n, 0x1_0000);
            } else {
                assert(ps[k] == pre[k]);
            }
        }
    }
}

/// Timestamp law: every packet of a run of NAL units packetized without a
/// timestamp step carries the timestamp of the state it started from.
pub proof fn lemma_stream_timestamp(st: PacketizerView, units: Seq<(Seq<u8>, bool)>, mtu: nat)
    ensures
        forall|k: int|
            0 <= k < stream_packets(st, units, mtu).len() ==> (#[trigger] stream_packets(
                st,
                units,
                mtu,
            )[k]).0.timestamp == st.timestamp,
    decreases units.len(),
{
    if units.len() > 0 {
        lemma_stream_timestamp(st, units.drop_last(), mtu);
        let pre = stream_packets(st, units.drop_last(), mtu);
        let ps = stream_packets(st, units, mtu);
        assert forall|k: int| 0 <= k < ps.len() implies (#[trigger] ps[k]).0.timestamp == st.timestamp by {
            if k < pre.len() {
                assert(ps[k] == pre[k]);
            }
        }
    }
}

/// Marker law: when only the last of a run of non-empty NAL units ends the
/// access unit, exactly one packet is marked, the last one, which carries
/// that unit's last bytes.
pub proof fn lemma_stream_marker(st: PacketizerView, units: Seq<(Seq<u8>, bool)>, mtu: nat)
    requires
        mtu >= 3,
        units.len() >= 1,
        all_nonempty(units),
        forall|i: int| 0 <= i < units.len() - 1 ==> !(#[trigger] units[i]).1,
        units.last().1,
    ensures
        ({
            let ps = stream_packets(st, units, mtu);
            &&& ps.len() >= 1
            &&& ps.last().0.marker
            &&& forall|k: int| 0 <= k < ps.len() - 1 ==> !(#[trigger] ps[k]).0.marker
            &&& ps.last().1 == payloads(units.last().0, mtu).last()
        }),
{
    let rest = units.drop_last();
    lemma_unmarked(st, rest, mtu);
    lemma_payloads_nonempty(units.last().0, mtu);
    let pre = stream_packets(st, rest, mtu);
    let ps = stream_packets(st, units, mtu);
    assert forall|k: int| 0 <= k < ps.len() - 1 implies !(#[trigger] ps[k]).0.marker by {
        if k < pre.len() {
            assert(ps[k] == pre[k]);
        }
    }
}

pub proof fn lemma_unmarked(st: PacketizerView, units: Seq<(Seq<u8>, bool)>, mtu: nat)
    requires
        forall|i: int| 0 <= i < units.len() ==> !(#[trigger] units[i]).1,
    ensures
        forall|k: int|
            0 <= k < stream_packets(st, units, mtu).len() ==> !(#[trigger] stream_packets(
                st,
                units,
                mtu,
            )[k]).0.marker,
    decreases units.len(),
{
    if units.len() > 0 {
        let rest = units.drop_last();
        assert forall|i: int| 0 <= i < rest.len() implies !(#[trigger] rest[i]).1 by {
            assert(rest[i] == units[i]);
        }
        lemma_unmarked(st, rest, mtu);
        let pre = stream_packets(st, rest, mtu);
        let ps = stream_packets(st, units, mtu);
        assert(!units[units.len() - 1].1);
        assert forall|k: int| 0 <= k < ps.len() implies !(#[trigger] ps[k]).0.marker by {
            if k < pre.len() {
                assert(ps[k] == pre[k]);
            }
        }
    }
}

proof fn lemma_chunks_flatten(body: Seq<u8>, size: nat)
    requires
        size > 0,
    ensures
        fu_chunks(body, size).flatten() == body,
    decreases body.len(),
{
    let cs = fu_chunks(body, size);
    if body.len() <= size {
        cs.lemma_flatten_one_element();
    } else {
        lemma_chunks_flatten(body.skip(size as int), size);
        assert(cs.drop_first() =~= fu_chunks(body.skip(size as int), size));
        assert(body.take(size as int) + body.skip(size as int) =~= body);
    }
}

proof fn lemma_nal_header_restored(h: u8, start: bool, end: bool)
    ensures
        (fu_indicator(h) & 0xE0) | (fu_header(h, start, end) & 0x1F) == h,
{
    let s: u8 = if start { 0x80 } else { 0 };
    let e: u8 = if end { 0x40 } else { 0 };
    assert(((h & 0xE0) | 28u8) & 0xE0 | (((h & 0x1F) | s | e) & 0x1F) == h) by (bit_vector)
        requires
            s == 0x80 || s == 0,
            e == 0x40 || e == 0,
    ;
}

/// FU-A reassembly: the NAL header rebuilt from the first fragment's FU
/// indicator and FU header, followed by the fragments' data in order, is
/// the original NAL unit.
pub proof fn lemma_fu_a_reassembly(nalu: Seq<u8>, mtu: nat)
    requires
        mtu >= 3,
        nalu.len() > mtu,
    ensures
        ({
            let ps = payloads(nalu, mtu);
            &&& ps.len() >= 2
            &&& forall|i: int| 0 <= i < ps.len() ==> (#[trigger] ps[i]).len() >= 2
            &&& seq![(ps[0][0] & 0xE0) | (ps[0][1] & 0x1F)] + ps.map_values(
                |p: Seq<u8>| p.skip(2),
            ).flatten() == nalu
        }),
{
    let ps = payloads(nalu, mtu);
    let size = (mtu - 2) as nat;
    let body = nalu.drop_first();
    let cs = fu_chunks(body, size);
    assert(body.len() > size);
    assert(fu_chunks(body.skip(size as int), size).len() >= 1);
    assert(cs.len() >= 2);
    lemma_chunks_flatten(body, size);
    let data = ps.map_values(|p: Seq<u8>| p.skip(2));
    assert forall|i: int| 0 <= i < ps.len() implies (#[trigger] ps[i]).len() >= 2 && data[i] == cs[i] by {
        assert(ps[i] == fu_payload(nalu, mtu, i));
        assert(ps[i].skip(2) =~= cs[i]);
    }
    assert(data =~= cs);
    lemma_nal_header_restored(nalu[0], true, cs.len() == 1);
    assert(seq![nalu[0]] + body =~= nalu);
}

/// Packetizer state of one RTP stream.
pub struct H264Packetizer {
    sequence: u16,
    timestamp: u32,
    ssrc: u32,
    payload_type: u8,
}

impl View for H264Packetizer {
    type V = PacketizerView;

    closed spec fn view(&self) -> PacketizerView {
        PacketizerView {
            sequence: self.sequence,
            timestamp: self.timestamp,
            ssrc: self.ssrc,
            payload_type: self.payload_type,
        }
    }
}

impl H264Packetizer {
    /// A packetizer for `ssrc`, starting at sequence 0 and timestamp 0.
    pub fn new(ssrc: u32) -> (p: H264Packetizer)
        ensures
            p@ == (PacketizerView { sequence: 0, timestamp: 0, ssrc, payload_type: 96 }),
    {
        H264Packetizer { sequence: 0, timestamp: 0, ssrc, payload_type: PAYLOAD_TYPE_H264 }
    }

    /// Sequence number of the next packet.
    pub fn sequence(&self) -> (s: u16)
        ensures
            s == self@.sequence,
    {
        self.sequence
    }

    pub fn ssrc(&self) -> (s: u32)
        ensures
            s == self@.ssrc,
    {
        self.ssrc
    }

    /// Timestamp of the access unit being packetized.
    pub fn timestamp(&self) -> (t: u32)
        ensures
            t == self@.timestamp,
    {
        self.timestamp
    }

    /// The RTP packets that carry `nalu`; `is_last` marks the final packet
    /// (the NAL unit ends its access unit).
    pub fn packetize(&mut self, nalu: &[u8], is_last: bool) -> (packets: Vec<RtpPacket>)
        ensures
            packetized(old(self)@, nalu@, MTU as nat, is_last, packets@),
            final(self)@ == old(self)@.advance(packets@.len() as int),
    {
        if nalu.len() == 0 {
            let packets: Vec<RtpPacket> = Vec::new();
            assert(packets@.len() == 0);
            assert(old(self)@.advance(0) == old(self)@);
            return packets;
        }
        if nalu.len() <= MTU {
            let mut header = RtpHeader::new(self.payload_type, self.sequence, self.timestamp, self.ssrc);
            header.marker = is_last;
            let mut payload: Vec<u8> = Vec::new();
            push_all(&mut payload, nalu);
            let mut packets: Vec<RtpPacket> = Vec::new();
            packets.push(RtpPacket::new(header, payload));
            self.sequence = self.sequence.wrapping_add(1);
            assert(payloads(nalu@, MTU as nat) =~= seq![nalu@]);
            assert(packets@[0].header == header_at(old(self)@, 0, 1, is_last));
            packets
        } else {
            self.fragment_nalu(nalu, is_last)
        }
    }

    /// FU-A fragments of a NAL unit longer than the MTU.
    fn fragment_nalu(&mut self, nalu: &[u8], is_last_nalu: bool) -> (packets: Vec<RtpPacket>)
        requires
            nalu@.len() > MTU,
        ensures
            packetized(old(self)@, nalu@, MTU as nat, is_last_nalu, packets@),
            final(self)@ == old(self)@.advance(packets@.len() as int),
    {
        let len = nalu.len();
        let nal_header = nalu[0];
        let indicator: u8 = (nal_header & 0xE0) | FU_A_TYPE;
        let ghost st = self@;
        let ghost body = nalu@.drop_first();
        let ghost cs = fu_chunks(body, FU_CHUNK as nat);
        let ghost mut done: Seq<Seq<u8>> = Seq::empty();
        let mut packets: Vec<RtpPacket> = Vec::new();
        let mut off: usize = 1;
        let mut i: usize = 0;
        assert(nalu@.subrange(1, len as int) =~= body);
        while off < len
            invariant
                len == nalu@.len(),
                len > MTU,
                nal_header == nalu@[0],
                indicator == fu_indicator(nal_header),
                body == nalu@.drop_first(),
                cs == fu_chunks(body, FU_CHUNK as nat),
                1 <= off <= len,
                i == done.len(),
                i == packets@.len(),
                i <= off,
                off < len ==> cs == done + fu_chunks(nalu@.subrange(off as int, len as int), FU_CHUNK as nat),
                off == len ==> cs == done,
                self@ == st.advance(i as int),
                forall|k: int|
                    0 <= k < i ==> {
                        &&& (#[trigger] packets@[k]).header == header_at(st, k, cs.len() as int, is_last_nalu)
                        &&& packets@[k].payload@ == fu_payload(nalu@, MTU as nat, k)
                    },
            decreases len - off,
        {
            let ghost rest = nalu@.subrange(off as int, len as int);
            let end: usize = if len - off > FU_CHUNK { off + FU_CHUNK } else { len };
            let first = i == 0;
            let last = end == len;
            let start_bit: u8 = if first { 0x80 } else { 0 };
            let end_bit: u8 = if last { 0x40 } else { 0 };
            let fu: u8 = (nal_header & 0x1F) | start_bit | end_bit;
            let mut payload: Vec<u8> = Vec::new();
            payload.push(indicator);
            payload.push(fu);
            push_all(&mut payload, &nalu[off..end]);
            let mut header = RtpHeader::new(self.payload_type, self.sequence, self.timestamp, self.ssrc);
            header.marker = last && is_last_nalu;
            packets.push(RtpPacket::new(header, payload));
            self.sequence = self.sequence.wrapping_add(1);
            proof {
                let piece = nalu@.subrange(off as int, end as int);
                if last {
                    assert(fu_chunks(rest, FU_CHUNK as nat) == seq![rest]);
                    assert(piece =~= rest);
                } else {
                    assert(rest.take(FU_CHUNK as int) =~= piece);
                    assert(rest.skip(FU_CHUNK as int) =~= nalu@.subrange(end as int, len as int));
                    assert(fu_chunks(rest.skip(FU_CHUNK as int), FU_CHUNK as nat).len() >= 1);
                }
                assert(cs == done.push(piece) + (if last { Seq::empty() } else {
                    fu_chunks(nalu@.subrange(end as int, len as int), FU_CHUNK as nat)
                }));
                assert(cs[i as int] == piece);
                assert(last <==> i == cs.len() - 1);
                assert(fu == fu_header(nal_header, i == 0, i == cs.len() - 1));
                assert(payload@ =~= fu_payload(nalu@, MTU as nat, i as int));
                done = done.push(piece);
                if last {
                    assert(cs =~= done);
                }
                assert(self@ == st.advance(i + 1));
            }
            off = end;
            i = i + 1;
        }
        assert(payloads(nalu@, MTU as nat).len() == cs.len());
        packets
    }

    /// Moves the timestamp on by `duration_90khz` ticks (after each frame).
    pub fn increment_timestamp(&mut self, duration_90khz: u32)
        ensures
            final(self)@ == (PacketizerView {
                timestamp: ts_add(old(self)@.timestamp, duration_90khz as int),
                ..old(self)@
            }),
    {
        self.timestamp = self.timestamp.wrapping_add(duration_90khz);
    }

    pub fn set_timestamp(&mut self, ts: u32)
        ensures
            final(self)@ == (PacketizerView { timestamp: ts, ..old(self)@ }),
    {
        self.timestamp = ts;
    }
}

} // verus!
