//! RTCP Sender Reports (RFC 3550, section 6.4.1).
use vstd::prelude::*;
use crate::wire::{be16, be32, push_be16, push_be32};

verus! {

/// Seconds from the NTP epoch (1900) to the UNIX epoch (1970).
pub const NTP_UNIX_OFFSET: u64 = 2_208_988_800;

/// A 64-bit NTP timestamp: whole seconds and a 32-bit binary fraction.
#[derive(Clone, Copy, Debug, PartialEq, Eq, Structural)]
pub struct NtpTimestamp {
    pub seconds: u32,
    pub fraction: u32,
}

/// The NTP timestamp of a UNIX time given as seconds and nanoseconds.
pub open spec fn ntp_of(secs: u64, nanos: u32) -> NtpTimestamp {
    NtpTimestamp {
        seconds: ((secs + NTP_UNIX_OFFSET) % 0x1_0000_0000) as u32,
        fraction: ((nanos * 0x1_0000_0000) / 1_000_000_000) as u32,
    }
}

/// The 28 bytes of a Sender Report without report blocks: V=2, P=0, RC=0,
/// PT=200, length 6, then SSRC, NTP timestamp, RTP timestamp, packet and
/// octet counts.
pub open spec fn sr_bytes(
    ssrc: u32,
    ntp: NtpTimestamp,
    rtp_timestamp: u32,
    packet_count: u32,
    octet_count: u32,
) -> Seq<u8> {
    seq![0x80u8, 200u8] + be16(6) + be32(ssrc) + be32(ntp.seconds) + be32(ntp.fraction) + be32(
        rtp_timestamp,
    ) + be32(packet_count) + be32(octet_count)
}

/// Relies on std::time::SystemTime::elapsed, called on UNIX_EPOCH: the
/// time since 1970 as whole seconds and the nanoseconds below one second
/// (zero when the clock reads before 1970).
#[verifier::external_body]
fn unix_time_now() -> (r: (u64, u32))
    ensures
        r.1 < 1_000_000_000,
{
    match std::time::UNIX_EPOCH.elapsed() {
        Ok(d) => (d.as_secs(), d.subsec_nanos()),
        Err(_) => (0, 0),
    }
}

/// Converts a UNIX time to an NTP timestamp.
pub fn ntp_from_unix(secs: u64, nanos: u32) -> (t: NtpTimestamp)
    requires
        nanos < 1_000_000_000,
    ensures
        t == ntp_of(secs, nanos),
{
    let s: u32 = ((secs as u128 + NTP_UNIX_OFFSET as u128) % 0x1_0000_0000) as u32;
    let n: u64 = nanos as u64;
    assert(n * 0x1_0000_0000 < 0x1_0000_0000 * 1_000_000_000) by (nonlinear_arith)
        requires
            n < 1_000_000_000,
    ;
    assert((n * 0x1_0000_0000) / 1_000_000_000 < 0x1_0000_0000) by (nonlinear_arith)
        requires
            n < 1_000_000_000,
    ;
    let f: u32 = ((n * 0x1_0000_0000) / 1_000_000_000) as u32;
    NtpTimestamp { seconds: s, fraction: f }
}

/// Sender statistics of one RTP stream.
#[derive(Debug)]
pub struct SenderReport {
    pub ssrc: u32,
    pub packet_count: u32,
    pub octet_count: u32,
}

impl SenderReport {
    pub fn new(ssrc: u32) -> (r: SenderReport)
        ensures
            r == (SenderReport { ssrc, packet_count: 0, octet_count: 0 }),
    {
        SenderReport { ssrc, packet_count: 0, octet_count: 0 }
    }

    /// Counts one RTP packet whose payload is `size` bytes; both counters
    /// wrap around at 2^32.
    pub fn add_packet(&mut self, size: usize)
        ensures
            final(self).ssrc == old(self).ssrc,
            final(self).packet_count == ((old(self).packet_count + 1) % 0x1_0000_0000) as u32,
            final(self).octet_count == ((old(self).octet_count + size) % 0x1_0000_0000) as u32,
    {
        self.packet_count = self.packet_count.wrapping_add(1);
        let low: u32 = (size as u64 % 0x1_0000_0000) as u32;
        self.octet_count = self.octet_count.wrapping_add(low);
    }

    /// The report at NTP time `ntp`, when the stream's RTP clock reads
    /// `rtp_timestamp`.
    pub fn to_bytes_at(&self, ntp: NtpTimestamp, rtp_timestamp: u32) -> (r: Vec<u8>)
        ensures
            r@ == sr_bytes(self.ssrc, ntp, rtp_timestamp, self.packet_count, self.octet_count),
    {
        let mut buf: Vec<u8> = Vec::new();
        buf.push(0x80);
        buf.push(200);
        push_be16(&mut buf, 6);
        push_be32(&mut buf, self.ssrc);
        push_be32(&mut buf, ntp.seconds);
        push_be32(&mut buf, ntp.fraction);
        push_be32(&mut buf, rtp_timestamp);
        push_be32(&mut buf, self.packet_count);
        push_be32(&mut buf, self.octet_count);
        assert(buf@ =~= sr_bytes(self.ssrc, ntp, rtp_timestamp, self.packet_count, self.octet_count));
        buf
    }

    /// The current NTP time.
    pub fn get_ntp_timestamp() -> (t: NtpTimestamp)
        ensures
            exists|secs: u64, nanos: u32| nanos < 1_000_000_000 && t == ntp_of(secs, nanos),
    {
        let (secs, nanos) = unix_time_now();
        ntp_from_unix(secs, nanos)
    }

    /// The report now, when the stream's RTP clock reads `rtp_timestamp`.
    pub fn to_bytes(&self, rtp_timestamp: u32) -> (r: Vec<u8>)
        ensures
            exists|ntp: NtpTimestamp|
                r@ == sr_bytes(self.ssrc, ntp, rtp_timestamp, self.packet_count, self.octet_count),
    {
        let ntp = Self::get_ntp_timestamp();
        self.to_bytes_at(ntp, rtp_timestamp)
    }
}

/// Layout of a Sender Report: 28 bytes, first byte V=2 P=0 RC=0, packet
/// type 200, length field 6, and the counters in the last eight bytes.
pub proof fn lemma_sr_layout(
    ssrc: u32,
    ntp: NtpTimestamp,
    rtp_timestamp: u32,
    packet_count: u32,
    octet_count: u32,
)
    ensures
        ({
            let b = sr_bytes(ssrc, ntp, rtp_timestamp, packet_count, octet_count);
            &&& b.len() == 28
            &&& b[0] / 64 == 2
            &&& (b[0] / 32) % 2 == 0
            &&& b[0] % 32 == 0
            &&& b[1] == 200
            &&& b[2] == 0 && b[3] == 6
            &&& b.subrange(4, 8) == be32(ssrc)
            &&& b.subrange(20, 24) == be32(packet_count)
            &&& b.subrange(24, 28) == be32(octet_count)
        }),
{
    let b = sr_bytes(ssrc, ntp, rtp_timestamp, packet_count, octet_count);
    assert(b.subrange(4, 8) =~= be32(ssrc));
    assert(b.subrange(20, 24) =~= be32(packet_count));
    assert(b.subrange(24, 28) =~= be32(octet_count));
}

} // verus!
