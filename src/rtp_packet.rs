//! The fixed 12-byte RTP header and whole RTP packets.
use vstd::prelude::*;
use crate::wire::{be16, be32, push_all};

verus! {

/// Payload type used for H.264 (dynamic range).
pub const PAYLOAD_TYPE_H264: u8 = 96;

/// Length of the fixed RTP header in bytes.
pub const RTP_HEADER_LEN: usize = 12;

/// The fixed part of an RTP header.
#[derive(Clone, Copy, Debug)]
pub struct RtpHeader {
    pub version: u8,
    pub padding: bool,
    pub extension: bool,
    pub csrc_count: u8,
    pub marker: bool,
    pub payload_type: u8,
    pub sequence: u16,
    pub timestamp: u32,
    pub ssrc: u32,
}

pub open spec fn bit(b: bool) -> int {
    if b { 1 } else { 0 }
}

/// First header byte: V(2) P(1) X(1) CC(4); bits beyond a field's width
/// are dropped.
pub open spec fn first_byte(h: RtpHeader) -> u8 {
    ((h.version % 4) * 64 + bit(h.padding) * 32 + bit(h.extension) * 16 + h.csrc_count % 16) as u8
}

/// Second header byte: M(1) PT(7).
pub open spec fn second_byte(h: RtpHeader) -> u8 {
    (bit(h.marker) * 128 + h.payload_type % 128) as u8
}

/// The twelve wire bytes of a header.
pub open spec fn header_bytes(h: RtpHeader) -> Seq<u8> {
    seq![first_byte(h), second_byte(h)] + be16(h.sequence) + be32(h.timestamp) + be32(h.ssrc)
}

impl RtpHeader {
    /// A version-2 header without padding, extension or CSRCs, marker clear.
    pub fn new(payload_type: u8, sequence: u16, timestamp: u32, ssrc: u32) -> (h: RtpHeader)
        ensures
            h == (RtpHeader {
                version: 2,
                padding: false,
                extension: false,
                csrc_count: 0,
                marker: false,
                payload_type,
                sequence,
                timestamp,
                ssrc,
            }),
    {
        RtpHeader {
            version: 2,
            padding: false,
            extension: false,
            csrc_count: 0,
            marker: false,
            payload_type,
            sequence,
            timestamp,
            ssrc,
        }
    }

    /// The header in wire format (RFC 3550, section 5.1).
    pub fn to_bytes(&self) -> (r: [u8; 12])
        ensures
            r@ == header_bytes(*self),
    {
        let b0: u8 = (self.version % 4) * 64 + (if self.padding { 32u8 } else { 0u8 })
            + (if self.extension { 16u8 } else { 0u8 }) + self.csrc_count % 16;
        let b1: u8 = (if self.marker { 128u8 } else { 0u8 }) + self.payload_type % 128;
        let s = self.sequence;
        let t = self.timestamp;
        let c = self.ssrc;
        let r = [
            b0,
            b1,
            (s / 0x100) as u8,
            (s % 0x100) as u8,
            (t / 0x100_0000) as u8,
            ((t / 0x1_0000) % 0x100) as u8,
            ((t / 0x100) % 0x100) as u8,
            (t % 0x100) as u8,
            (c / 0x100_0000) as u8,
            ((c / 0x1_0000) % 0x100) as u8,
            ((c / 0x100) % 0x100) as u8,
            (c % 0x100) as u8,
        ];
        assert(r@ =~= header_bytes(*self));
        r
    }
}

/// An RTP packet: header and payload.
#[derive(Debug)]
pub struct RtpPacket {
    pub header: RtpHeader,
    pub payload: Vec<u8>,
}

/// The wire bytes of a packet: header, then payload.
pub open spec fn packet_bytes(h: RtpHeader, payload: Seq<u8>) -> Seq<u8> {
    header_bytes(h) + payload
}

impl RtpPacket {
    pub fn new(header: RtpHeader, payload: Vec<u8>) -> (p: RtpPacket)
        ensures
            p.header == header,
            p.payload@ == payload@,
    {
        RtpPacket { header, payload }
    }

    /// The whole packet in wire format.
    pub fn to_bytes(&self) -> (r: Vec<u8>)
        ensures
            r@ == packet_bytes(self.header, self.payload@),
    {
        let mut buf: Vec<u8> = Vec::new();
        let h = self.header.to_bytes();
        push_all(&mut buf, h.as_slice());
        push_all(&mut buf, self.payload.as_slice());
        buf
    }
}

} // verus!
