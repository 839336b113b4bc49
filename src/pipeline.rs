//! The fan-out's decisions for each NAL unit of the source: parameter-set
//! cache and replay before IDR pictures, access-unit ends, timestamp steps
//! and sender statistics; and the interleaved framing used on RTSP
//! connections.
use vstd::prelude::*;
use crate::h264::{
    all_nonempty, lemma_packetized_wire, lemma_stream_marker, lemma_stream_numbering,
    lemma_stream_timestamp, lemma_unmarked, seq_add, stream_packets, ts_add, wire_view,
    H264Packetizer, PacketizerView, MTU,
};
use crate::rtcp::{sr_bytes, NtpTimestamp, SenderReport};
use crate::rtp_packet::{RtpHeader, RtpPacket};
use crate::registry::ClientInfo;
use crate::wire::{be16, push_all, push_be16};
use vstd::arithmetic::div_mod::{lemma_add_mod_noop, lemma_add_mod_noop_right};

verus! {

/// RTP clock ticks per frame at 30 frames per second on the 90 kHz clock.
pub const DEFAULT_FRAME_TICKS: u32 = 3000;

pub open spec fn nal_type(nalu: Seq<u8>) -> u8 {
    nalu[0] & 0x1F
}

/// A coded slice (types 1 to 5): under the access-unit heuristic each one
/// ends its access unit.
pub open spec fn is_vcl(t: u8) -> bool {
    1 <= t <= 5
}

pub open spec fn cached(p: Option<Seq<u8>>) -> Seq<(Seq<u8>, bool)> {
    match p {
        Some(n) => seq![(n, false)],
        None => Seq::empty(),
    }
}

/// The NAL units sent for `nalu`, each with whether it ends the access
/// unit: an IDR picture is preceded by the cached SPS and PPS.
pub open spec fn units_for(nalu: Seq<u8>, sps: Option<Seq<u8>>, pps: Option<Seq<u8>>) -> Seq<(Seq<u8>, bool)> {
    if nalu.len() == 0 {
        Seq::empty()
    } else {
        let t = nal_type(nalu);
        (if t == 5 {
            cached(sps) + cached(pps)
        } else {
            Seq::empty()
        }) + seq![(nalu, is_vcl(t))]
    }
}

/// Sum of the payload lengths of `ws`.
pub open spec fn payload_total(ws: Seq<(RtpHeader, Seq<u8>)>) -> nat
    decreases ws.len(),
{
    if ws.len() == 0 {
        0
    } else {
        payload_total(ws.drop_last()) + ws.last().1.len()
    }
}

pub open spec fn opt_bytes(o: Option<Vec<u8>>) -> Option<Seq<u8>> {
    match o {
        Some(v) => Some(v@),
        None => None,
    }
}

/// The packets sent for `nalu` from state `v`.
pub open spec fn step_packets(v: PipelineView, nalu: Seq<u8>) -> Seq<(RtpHeader, Seq<u8>)> {
    stream_packets(v.packetizer, units_for(nalu, v.sps, v.pps), MTU as nat)
}

/// The state after `nalu` was processed from state `v`: sequence numbers
/// and counters moved on by its packets, the timestamp stepped after a
/// coded slice, the parameter-set cache updated.
pub open spec fn step_view(v: PipelineView, nalu: Seq<u8>) -> PipelineView {
    let moved = after_packets(v, step_packets(v, nalu));
    PipelineView {
        packetizer: if nalu.len() > 0 && is_vcl(nal_type(nalu)) {
            PacketizerView { timestamp: ts_add(v.packetizer.timestamp, v.frame_ticks as int), ..moved.packetizer }
        } else {
            moved.packetizer
        },
        packet_count: moved.packet_count,
        octet_count: moved.octet_count,
        sps: if nalu.len() > 0 && nal_type(nalu) == 7 { Some(nalu) } else { v.sps },
        pps: if nalu.len() > 0 && nal_type(nalu) == 8 { Some(nalu) } else { v.pps },
        frame_ticks: v.frame_ticks,
    }
}

/// The abstract state of the pipeline.
pub struct PipelineView {
    pub packetizer: PacketizerView,
    pub packet_count: u32,
    pub octet_count: u32,
    pub sps: Option<Seq<u8>>,
    pub pps: Option<Seq<u8>>,
    pub frame_ticks: u32,
}

/// Packetizer, parameter-set cache and sender statistics of the stream.
pub struct MediaPipeline {
    packetizer: H264Packetizer,
    report: SenderReport,
    sps: Option<Vec<u8>>,
    pps: Option<Vec<u8>>,
    frame_ticks: u32,
}

impl View for MediaPipeline {
    type V = PipelineView;

    closed spec fn view(&self) -> PipelineView {
        PipelineView {
            packetizer: self.packetizer@,
            packet_count: self.report.packet_count,
            octet_count: self.report.octet_count,
            sps: opt_bytes(self.sps),
            pps: opt_bytes(self.pps),
            frame_ticks: self.frame_ticks,
        }
    }
}

/// The pipeline after sending the packets `ws`: sequence numbers and
/// counters moved on.
pub open spec fn after_packets(v: PipelineView, ws: Seq<(RtpHeader, Seq<u8>)>) -> PipelineView {
    PipelineView {
        packetizer: v.packetizer.advance(ws.len() as int),
        packet_count: ((v.packet_count + ws.len()) % 0x1_0000_0000) as u32,
        octet_count: ((v.octet_count + payload_total(ws)) % 0x1_0000_0000) as u32,
        ..v
    }
}

fn copy_bytes(s: &[u8]) -> (r: Vec<u8>)
    ensures
        r@ == s@,
{
    let mut r: Vec<u8> = Vec::new();
    push_all(&mut r, s);
    r
}

impl MediaPipeline {
    /// A pipeline for stream `ssrc` whose timestamp steps `frame_ticks` per
    /// access unit.
    pub fn new(ssrc: u32, frame_ticks: u32) -> (p: MediaPipeline)
        ensures
            p@ == (PipelineView {
                packetizer: PacketizerView { sequence: 0, timestamp: 0, ssrc, payload_type: 96 },
                packet_count: 0,
                octet_count: 0,
                sps: None,
                pps: None,
                frame_ticks,
            }),
    {
        MediaPipeline {
            packetizer: H264Packetizer::new(ssrc),
            report: SenderReport::new(ssrc),
            sps: None,
            pps: None,
            frame_ticks,
        }
    }

    pub fn sequence(&self) -> (s: u16)
        ensures
            s == self@.packetizer.sequence,
    {
        self.packetizer.sequence()
    }

    pub fn timestamp(&self) -> (t: u32)
        ensures
            t == self@.packetizer.timestamp,
    {
        self.packetizer.timestamp()
    }

    /// The latest SPS and PPS seen.
    pub fn parameter_sets(&self) -> (r: (Option<Vec<u8>>, Option<Vec<u8>>))
        ensures
            opt_bytes(r.0) == self@.sps,
            opt_bytes(r.1) == self@.pps,
    {
        let sps = match &self.sps {
            Some(v) => Some(copy_bytes(v.as_slice())),
            None => None,
        };
        let pps = match &self.pps {
            Some(v) => Some(copy_bytes(v.as_slice())),
            None => None,
        };
        (sps, pps)
    }

    pub fn packet_count(&self) -> (c: u32)
        ensures
            c == self@.packet_count,
    {
        self.report.packet_count
    }

    pub fn octet_count(&self) -> (c: u32)
        ensures
            c == self@.octet_count,
    {
        self.report.octet_count
    }

    /// Packetizes one NAL unit into `out` and counts its packets.
    fn emit(
        &mut self,
        out: &mut Vec<RtpPacket>,
        nalu: &[u8],
        end: bool,
        Ghost(start): Ghost<PipelineView>,
        Ghost(units): Ghost<Seq<(Seq<u8>, bool)>>,
    )
        requires
            wire_view(old(out)@) == stream_packets(start.packetizer, units, MTU as nat),
            old(self)@ == after_packets(start, wire_view(old(out)@)),
        ensures
            wire_view(final(out)@) == stream_packets(start.packetizer, units.push((nalu@, end)), MTU as nat),
            final(self)@ == after_packets(start, wire_view(final(out)@)),
    {
        let ghost before = wire_view(out@);
        let ghost st = self.packetizer@;
        let mut pk = self.packetizer.packetize(nalu, end);
        proof {
            lemma_packetized_wire(st, nalu@, MTU as nat, end, pk@);
        }
        let ghost added = wire_view(pk@);
        let mut i: usize = 0;
        while i < pk.len()
            invariant
                i <= pk@.len(),
                added == wire_view(pk@),
                self.packetizer@ == st.advance(pk@.len() as int),
                st == start.packetizer.advance(before.len() as int),
                self.sps == old(self).sps,
                self.pps == old(self).pps,
                self.frame_ticks == old(self).frame_ticks,
                self.report.ssrc == old(self).report.ssrc,
                self.report.packet_count == ((start.packet_count + before.len() + i) % 0x1_0000_0000) as u32,
                self.report.octet_count == ((start.octet_count + payload_total(before + added.take(i as int)))
                    % 0x1_0000_0000) as u32,
            decreases pk@.len() - i,
        {
            let ghost pc = self.report.packet_count;
            let ghost oc = self.report.octet_count;
            self.report.add_packet(pk[i].payload.len());
            proof {
                lemma_add_mod_noop(start.packet_count + before.len() + i, 1, 0x1_0000_0000);
                let t = before + added.take(i as int);
                assert((before + added.take(i + 1)).drop_last() =~= t);
                assert(added[i as int].1 == pk@[i as int].payload@);
                lemma_add_mod_noop(start.octet_count + payload_total(t), pk@[i as int].payload@.len() as int, 0x1_0000_0000);
            }
            i = i + 1;
        }
        out.append(&mut pk);
        proof {
            assert(added.take(i as int) =~= added);
            assert(wire_view(out@) =~= before + added);
            assert(units.push((nalu@, end)).drop_last() =~= units);
            assert(st.advance(added.len() as int) == start.packetizer.advance((before + added).len() as int)) by {
                lemma_add_mod_noop_right(added.len() as int, start.packetizer.sequence + before.len(), 0x1_0000);
            }
        }
    }

    /// The RTP packets to send for one NAL unit of the source, in order.
    /// SPS and PPS are cached; an IDR picture is preceded by the cached
    /// parameter sets at its own timestamp; a coded slice ends its access
    /// unit: its last packet is marked and the timestamp then steps by the
    /// frame duration.
    #[verifier::rlimit(50)]
    pub fn process_nalu(&mut self, nalu: &[u8]) -> (packets: Vec<RtpPacket>)
        ensures
            wire_view(packets@) == step_packets(old(self)@, nalu@),
            final(self)@ == step_view(old(self)@, nalu@),
    {
        let ghost start = self@;
        let mut out: Vec<RtpPacket> = Vec::new();
        if nalu.len() == 0 {
            assert(wire_view(out@) =~= Seq::<(RtpHeader, Seq<u8>)>::empty());
            assert(after_packets(start, Seq::empty()) == start) by {
                assert(start.packetizer.advance(0) == start.packetizer);
            }
            assert(step_packets(start, nalu@) =~= Seq::<(RtpHeader, Seq<u8>)>::empty());
            return out;
        }
        let t = nalu[0] & 0x1F;
        let ghost mut units: Seq<(Seq<u8>, bool)> = Seq::empty();
        assert(wire_view(out@) =~= stream_packets(start.packetizer, units, MTU as nat));
        assert(self@ == after_packets(start, wire_view(out@))) by {
            assert(start.packetizer.advance(0) == start.packetizer);
        }
        if t == 5 {
            if let Some(sps) = &self.sps {
                let unit = copy_bytes(sps.as_slice());
                self.emit(&mut out, unit.as_slice(), false, Ghost(start), Ghost(units));
                proof {
                    units = units.push((unit@, false));
                }
            }
            if let Some(pps) = &self.pps {
                let unit = copy_bytes(pps.as_slice());
                self.emit(&mut out, unit.as_slice(), false, Ghost(start), Ghost(units));
                proof {
                    units = units.push((unit@, false));
                }
            }
        }
        let end = t >= 1 && t <= 5;
        self.emit(&mut out, nalu, end, Ghost(start), Ghost(units));
        proof {
            units = units.push((nalu@, end));
            assert(units =~= units_for(nalu@, start.sps, start.pps));
        }
        if t == 7 {
            self.sps = Some(copy_bytes(nalu));
        } else if t == 8 {
            self.pps = Some(copy_bytes(nalu));
        }
        if end {
            self.packetizer.increment_timestamp(self.frame_ticks);
        }
        assert(self@.sps == step_view(start, nalu@).sps);
        assert(self@.pps == step_view(start, nalu@).pps);
        assert(self@.packetizer == step_view(start, nalu@).packetizer);
        out
    }

    /// The Sender Report for now: counters so far, and the RTP timestamp
    /// the packetizer holds.
    pub fn sender_report(&self) -> (r: Vec<u8>)
        ensures
            exists|ntp: NtpTimestamp|
                r@ == sr_bytes(
                    self@.packetizer.ssrc,
                    ntp,
                    self@.packetizer.timestamp,
                    self@.packet_count,
                    self@.octet_count,
                ),
    {
        let report = SenderReport {
            ssrc: self.packetizer.ssrc(),
            packet_count: self.report.packet_count,
            octet_count: self.report.octet_count,
        };
        let ntp = SenderReport::get_ntp_timestamp();
        let r = report.to_bytes_at(ntp, self.packetizer.timestamp());
        assert(r@ == sr_bytes(self@.packetizer.ssrc, ntp, self@.packetizer.timestamp, self@.packet_count, self@.octet_count));
        r
    }
}

/// The RFC 2326 interleaved frame of `payload` on `channel`: `$`, the
/// channel, the length in two bytes, the payload.
pub open spec fn interleaved_bytes(channel: u8, payload: Seq<u8>) -> Seq<u8> {
    seq![36u8, channel] + be16(payload.len() as u16) + payload
}

/// Frames `payload` for the RTSP connection; `None` when it is longer than
/// the 16-bit length field allows.
pub fn interleaved_frame(channel: u8, payload: &[u8]) -> (r: Option<Vec<u8>>)
    ensures
        payload@.len() <= 0xffff ==> (r matches Some(f) && f@ == interleaved_bytes(channel, payload@)),
        payload@.len() > 0xffff ==> r is None,
{
    if payload.len() > 0xffff {
        return None;
    }
    let mut f: Vec<u8> = Vec::new();
    f.push(36);
    f.push(channel);
    push_be16(&mut f, payload.len() as u16);
    push_all(&mut f, payload);
    Some(f)
}

/// How long to wait before sending frame `frames`, when `elapsed_us`
/// microseconds have passed since the stream started and a frame lasts
/// `frame_us`: zero when already late.
pub fn pacing_delay_micros(elapsed_us: u64, frames: u64, frame_us: u64) -> (d: u64)
    ensures
        frames * frame_us <= u64::MAX ==> d == if frames * frame_us > elapsed_us {
            (frames * frame_us - elapsed_us) as u64
        } else {
            0
        },
        frames * frame_us > u64::MAX ==> d == u64::MAX - elapsed_us,
{
    let deadline: u64 = match frames.checked_mul(frame_us) {
        Some(x) => x,
        None => u64::MAX,
    };
    if deadline > elapsed_us {
        deadline - elapsed_us
    } else {
        0
    }
}

/// The state after processing each NAL unit of `ns` in turn from `v`.
pub open spec fn run_view(v: PipelineView, ns: Seq<Seq<u8>>) -> PipelineView
    decreases ns.len(),
{
    if ns.len() == 0 {
        v
    } else {
        step_view(run_view(v, ns.drop_last()), ns.last())
    }
}

/// The packets sent while processing each NAL unit of `ns` in turn from `v`.
pub open spec fn run_packets(v: PipelineView, ns: Seq<Seq<u8>>) -> Seq<(RtpHeader, Seq<u8>)>
    decreases ns.len(),
{
    if ns.len() == 0 {
        Seq::empty()
    } else {
        run_packets(v, ns.drop_last()) + step_packets(run_view(v, ns.drop_last()), ns.last())
    }
}

proof fn lemma_payload_total_concat(a: Seq<(RtpHeader, Seq<u8>)>, b: Seq<(RtpHeader, Seq<u8>)>)
    ensures
        payload_total(a + b) == payload_total(a) + payload_total(b),
    decreases b.len(),
{
    if b.len() > 0 {
        lemma_payload_total_concat(a, b.drop_last());
        assert((a + b).drop_last() =~= a + b.drop_last());
    }
}

/// Sequence and counter laws over any run of calls: the packets are
/// numbered consecutively on the 16-bit circle with no gap across calls;
/// the packet count grows by their number and the octet count by their
/// payload bytes only, both modulo 2^32.
pub proof fn lemma_run_counts(v: PipelineView, ns: Seq<Seq<u8>>)
    ensures
        ({
            let ps = run_packets(v, ns);
            let w = run_view(v, ns);
            &&& forall|k: int| 0 <= k < ps.len() ==> (#[trigger] ps[k]).0.sequence == seq_add(v.packetizer.sequence, k)
            &&& w.packetizer.sequence == seq_add(v.packetizer.sequence, ps.len() as int)
            &&& w.packet_count == ((v.packet_count + ps.len()) % 0x1_0000_0000) as u32
            &&& w.octet_count == ((v.octet_count + payload_total(ps)) % 0x1_0000_0000) as u32
            &&& w.frame_ticks == v.frame_ticks
        }),
    decreases ns.len(),
{
    if ns.len() > 0 {
        let pre = ns.drop_last();
        lemma_run_counts(v, pre);
        let u = run_view(v, pre);
        let a = run_packets(v, pre);
        let b = step_packets(u, ns.last());
        let ps = run_packets(v, ns);
        let n = a.len() as int;
        lemma_stream_numbering(u.packetizer, units_for(ns.last(), u.sps, u.pps), MTU as nat);
        assert forall|k: int| 0 <= k < ps.len() implies (#[trigger] ps[k]).0.sequence == seq_add(
            v.packetizer.sequence,
            k,
        ) by {
            if k >= n {
                assert(ps[k] == b[k - n]);
                lemma_add_mod_noop_right(k - n, v.packetizer.sequence + n, 0x1_0000);
            } else {
                assert(ps[k] == a[k]);
            }
        }
        lemma_add_mod_noop_right(b.len() as int, v.packetizer.sequence + n, 0x1_0000);
        lemma_add_mod_noop_right(b.len() as int, v.packet_count + n, 0x1_0000_0000);
        lemma_payload_total_concat(a, b);
        lemma_add_mod_noop_right(payload_total(b) as int, v.octet_count + payload_total(a), 0x1_0000_0000);
    }
}

/// Cached parameter sets are non-empty.
pub open spec fn cache_ok(v: PipelineView) -> bool {
    &&& (v.sps matches Some(a) ==> a.len() > 0)
    &&& (v.pps matches Some(b) ==> b.len() > 0)
}

/// The NAL units of one access unit under the heuristic: non-empty, with
/// a coded slice last and none before it.
pub open spec fn is_access_unit(ns: Seq<Seq<u8>>) -> bool {
    &&& ns.len() >= 1
    &&& forall|i: int| 0 <= i < ns.len() ==> (#[trigger] ns[i]).len() > 0
    &&& forall|i: int| 0 <= i < ns.len() ==> (is_vcl(nal_type(#[trigger] ns[i])) <==> i == ns.len() - 1)
}

proof fn lemma_run_no_slice(v: PipelineView, ns: Seq<Seq<u8>>)
    requires
        cache_ok(v),
        forall|i: int| 0 <= i < ns.len() ==> (#[trigger] ns[i]).len() > 0 && !is_vcl(nal_type(ns[i])),
    ensures
        ({
            let ps = run_packets(v, ns);
            let w = run_view(v, ns);
            &&& cache_ok(w)
            &&& w.packetizer.timestamp == v.packetizer.timestamp
            &&& w.frame_ticks == v.frame_ticks
            &&& forall|k: int| 0 <= k < ps.len() ==> !(#[trigger] ps[k]).0.marker
            &&& forall|k: int| 0 <= k < ps.len() ==> (#[trigger] ps[k]).0.timestamp == v.packetizer.timestamp
        }),
    decreases ns.len(),
{
    if ns.len() > 0 {
        let pre = ns.drop_last();
        assert forall|i: int| 0 <= i < pre.len() implies (#[trigger] pre[i]).len() > 0 && !is_vcl(nal_type(pre[i])) by {
            assert(pre[i] == ns[i]);
        }
        lemma_run_no_slice(v, pre);
        let u = run_view(v, pre);
        let n = ns.last();
        assert(n == ns[ns.len() - 1]);
        let units = units_for(n, u.sps, u.pps);
        assert forall|i: int| 0 <= i < units.len() implies !(#[trigger] units[i]).1 by {}
        lemma_unmarked(u.packetizer, units, MTU as nat);
        lemma_stream_timestamp(u.packetizer, units, MTU as nat);
        let a = run_packets(v, pre);
        let b = step_packets(u, n);
        let ps = run_packets(v, ns);
        assert forall|k: int| 0 <= k < ps.len() implies !(#[trigger] ps[k]).0.marker && ps[k].0.timestamp
            == v.packetizer.timestamp by {
            if k < a.len() {
                assert(ps[k] == a[k]);
            } else {
                assert(ps[k] == b[k - a.len()]);
            }
        }
    }
}

/// Marker and timestamp laws over the calls of one access unit: exactly one
/// packet is marked, the last one, which carries the last bytes of the
/// coded slice that ends the unit; every packet carries the timestamp the
/// unit started with; the next unit's timestamp is that plus the frame
/// duration, modulo 2^32.
pub proof fn lemma_run_access_unit(v: PipelineView, ns: Seq<Seq<u8>>)
    requires
        cache_ok(v),
        is_access_unit(ns),
    ensures
        ({
            let ps = run_packets(v, ns);
            let w = run_view(v, ns);
            &&& ps.len() >= 1
            &&& ps.last().0.marker
            &&& forall|k: int| 0 <= k < ps.len() - 1 ==> !(#[trigger] ps[k]).0.marker
            &&& ps.last().1 == crate::h264::payloads(ns.last(), MTU as nat).last()
            &&& forall|k: int| 0 <= k < ps.len() ==> (#[trigger] ps[k]).0.timestamp == v.packetizer.timestamp
            &&& w.packetizer.timestamp == ts_add(v.packetizer.timestamp, v.frame_ticks as int)
            &&& cache_ok(w)
        }),
{
    let pre = ns.drop_last();
    assert forall|i: int| 0 <= i < pre.len() implies (#[trigger] pre[i]).len() > 0 && !is_vcl(nal_type(pre[i])) by {
        assert(pre[i] == ns[i]);
    }
    lemma_run_no_slice(v, pre);
    let u = run_view(v, pre);
    let n = ns.last();
    assert(n == ns[ns.len() - 1]);
    assert(is_vcl(nal_type(n)));
    let units = units_for(n, u.sps, u.pps);
    assert(units.last() == (n, true));
    assert forall|i: int| 0 <= i < units.len() - 1 implies !(#[trigger] units[i]).1 by {}
    assert(all_nonempty(units));
    lemma_stream_marker(u.packetizer, units, MTU as nat);
    lemma_stream_timestamp(u.packetizer, units, MTU as nat);
    let a = run_packets(v, pre);
    let b = step_packets(u, n);
    let ps = run_packets(v, ns);
    assert(ps.last() == b.last());
    assert forall|k: int| 0 <= k < ps.len() - 1 implies !(#[trigger] ps[k]).0.marker by {
        if k < a.len() {
            assert(ps[k] == a[k]);
        } else {
            assert(ps[k] == b[k - a.len()]);
        }
    }
    assert forall|k: int| 0 <= k < ps.len() implies (#[trigger] ps[k]).0.timestamp == v.packetizer.timestamp by {
        if k < a.len() {
            assert(ps[k] == a[k]);
        } else {
            assert(ps[k] == b[k - a.len()]);
        }
    }
}

/// Longest wait between encoder restarts, in seconds.
pub const MAX_RESTART_DELAY_SECS: u64 = 30;

/// The wait before the next encoder restart after one of `secs` seconds:
/// doubled, at most 30 seconds.
pub fn next_restart_delay(secs: u64) -> (r: u64)
    ensures
        r == if 2 * secs < MAX_RESTART_DELAY_SECS { 2 * secs } else { MAX_RESTART_DELAY_SECS as int },
{
    if secs >= MAX_RESTART_DELAY_SECS / 2 {
        MAX_RESTART_DELAY_SECS
    } else {
        secs * 2
    }
}

/// The clients of `clients` that get a Sender Report now: all of them at a
/// periodic report, else those not yet in `reported` (just started
/// playing).
pub open spec fn report_due(clients: Seq<ClientInfo>, reported: Seq<u64>, periodic: bool) -> Seq<ClientInfo>
    decreases clients.len(),
{
    if clients.len() == 0 {
        Seq::empty()
    } else {
        let rest = report_due(clients.drop_last(), reported, periodic);
        if periodic || !reported.contains(clients.last().id) {
            rest.push(clients.last())
        } else {
            rest
        }
    }
}

fn holds_id(ids: &Vec<u64>, id: u64) -> (r: bool)
    ensures
        r == ids@.contains(id),
{
    let mut i: usize = 0;
    while i < ids.len()
        invariant
            i <= ids@.len(),
            forall|k: int| 0 <= k < i ==> ids@[k] != id,
        decreases ids@.len() - i,
    {
        if ids[i] == id {
            assert(ids@[i as int] == id);
            return true;
        }
        i = i + 1;
    }
    false
}

/// Selects the clients that get a Sender Report now.
pub fn clients_to_report(clients: &Vec<ClientInfo>, reported: &Vec<u64>, periodic: bool) -> (r: Vec<ClientInfo>)
    ensures
        r@ == report_due(clients@, reported@, periodic),
{
    let mut r: Vec<ClientInfo> = Vec::new();
    let mut i: usize = 0;
    while i < clients.len()
        invariant
            i <= clients@.len(),
            r@ == report_due(clients@.subrange(0, i as int), reported@, periodic),
        decreases clients@.len() - i,
    {
        let c = clients[i];
        if periodic || !holds_id(reported, c.id) {
            r.push(c);
        }
        assert(clients@.subrange(0, i + 1).drop_last() =~= clients@.subrange(0, i as int));
        i = i + 1;
    }
    assert(clients@.subrange(0, i as int) =~= clients@);
    r
}

} // verus!
