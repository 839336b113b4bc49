//! The SDP description of the stream: server address, H.264 profile and
//! the parameter sets, base64 encoded.
use vstd::prelude::*;
use vstd::string::StringSliceAdditionalSpecFns;
use crate::registry::IpAddress;
use crate::rtsp::opt_view;
use crate::text::{decimal, hex_digits, push_decimal, push_hex, push_str};

verus! {

pub open spec fn b64_char(v: int) -> u8 {
    if v < 26 {
        (65 + v) as u8
    } else if v < 52 {
        (71 + v) as u8
    } else if v < 62 {
        (v - 4) as u8
    } else if v == 62 {
        43
    } else {
        47
    }
}

/// Base64 (RFC 4648) of `s`, with padding.
pub open spec fn base64(s: Seq<u8>) -> Seq<u8>
    decreases s.len(),
{
    if s.len() == 0 {
        Seq::empty()
    } else if s.len() == 1 {
        seq![b64_char((s[0] / 4) as int), b64_char(((s[0] % 4) * 16) as int), 61u8, 61u8]
    } else if s.len() == 2 {
        seq![b64_char((s[0] / 4) as int), b64_char(((s[0] % 4) * 16 + s[1] / 16) as int), b64_char(((s[1] % 16) * 4) as int), 61u8]
    } else {
        seq![
            b64_char((s[0] / 4) as int),
            b64_char(((s[0] % 4) * 16 + s[1] / 16) as int),
            b64_char(((s[1] % 16) * 4 + s[2] / 64) as int),
            b64_char((s[2] % 64) as int),
        ] + base64(s.skip(3))
    }
}

fn b64(v: u8) -> (c: u8)
    requires
        v < 64,
    ensures
        c == b64_char(v as int),
{
    if v < 26 {
        65 + v
    } else if v < 52 {
        71 + v
    } else if v < 62 {
        v - 4
    } else if v == 62 {
        43
    } else {
        47
    }
}

/// Appends the base64 text of `s`.
pub fn push_base64(out: &mut Vec<u8>, s: &[u8])
    ensures
        final(out)@ == old(out)@ + base64(s@),
{
    let ghost start = out@;
    let len = s.len();
    let mut i: usize = 0;
    assert(s@.skip(0) =~= s@);
    while i < len
        invariant
            len == s@.len(),
            i <= len,
            start + base64(s@) == out@ + base64(s@.skip(i as int)),
        decreases len - i,
    {
        let rest = len - i;
        let a = s[i];
        if rest == 1 {
            out.push(b64(a / 4));
            out.push(b64((a % 4) * 16));
            out.push(61);
            out.push(61);
            i = len;
        } else if rest == 2 {
            let b = s[i + 1];
            out.push(b64(a / 4));
            out.push(b64((a % 4) * 16 + b / 16));
            out.push(b64((b % 16) * 4));
            out.push(61);
            i = len;
        } else {
            let b = s[i + 1];
            let c = s[i + 2];
            out.push(b64(a / 4));
            out.push(b64((a % 4) * 16 + b / 16));
            out.push(b64((b % 16) * 4 + c / 64));
            out.push(b64(c % 64));
            assert(s@.skip(i as int).skip(3) =~= s@.skip(i + 3));
            i = i + 3;
        }
        proof {
            assert(start + base64(s@) =~= out@ + base64(s@.skip(i as int)));
        }
    }
    assert(base64(s@.skip(i as int)) =~= Seq::<u8>::empty());
    assert(out@ =~= start + base64(s@));
}

/// The connection address of the origin line.
pub open spec fn address_text(ip: IpAddress) -> Seq<u8> {
    match ip {
        IpAddress::V4(o) => "IN IP4 ".spec_bytes() + decimal(o[0] as nat) + ".".spec_bytes() + decimal(
            o[1] as nat,
        ) + ".".spec_bytes() + decimal(o[2] as nat) + ".".spec_bytes() + decimal(o[3] as nat),
        IpAddress::V6(g) => "IN IP6 ".spec_bytes() + hex_digits(g[0] as nat, 4) + ":".spec_bytes()
            + hex_digits(g[1] as nat, 4) + ":".spec_bytes() + hex_digits(g[2] as nat, 4) + ":".spec_bytes()
            + hex_digits(g[3] as nat, 4) + ":".spec_bytes() + hex_digits(g[4] as nat, 4) + ":".spec_bytes()
            + hex_digits(g[5] as nat, 4) + ":".spec_bytes() + hex_digits(g[6] as nat, 4) + ":".spec_bytes()
            + hex_digits(g[7] as nat, 4),
    }
}

/// The fmtp line: with both parameter sets known (an SPS of at least four
/// bytes), the profile-level-id from SPS bytes 1 to 3 and both sets in
/// base64; else packetization mode alone.
pub open spec fn fmtp_line(sps: Option<Seq<u8>>, pps: Option<Seq<u8>>) -> Seq<u8> {
    match (sps, pps) {
        (Some(a), Some(b)) => if a.len() >= 4 {
            "a=fmtp:96 packetization-mode=1;profile-level-id=".spec_bytes() + hex_digits(a[1] as nat, 2)
                + hex_digits(a[2] as nat, 2) + hex_digits(a[3] as nat, 2) + ";sprop-parameter-sets=".spec_bytes()
                + base64(a) + ",".spec_bytes() + base64(b) + "\r\n".spec_bytes()
        } else {
            "a=fmtp:96 packetization-mode=1\r\n".spec_bytes()
        },
        _ => "a=fmtp:96 packetization-mode=1\r\n".spec_bytes(),
    }
}

/// The SDP body of the stream served from `server_ip`.
pub open spec fn sdp(server_ip: IpAddress, sps: Option<Seq<u8>>, pps: Option<Seq<u8>>) -> Seq<u8> {
    "v=0\r\n".spec_bytes() + "o=- 0 0 ".spec_bytes() + address_text(server_ip) + "\r\n".spec_bytes()
        + "s=Simulation Media Server\r\nc=IN IP4 0.0.0.0\r\nt=0 0\r\nm=video 0 RTP/AVP 96\r\na=rtpmap:96 H264/90000\r\n".spec_bytes()
        + fmtp_line(sps, pps) + "a=control:track1\r\n".spec_bytes()
}

fn push_address(out: &mut Vec<u8>, ip: IpAddress)
    ensures
        final(out)@ == old(out)@ + address_text(ip),
{
    match ip {
        IpAddress::V4(o) => {
            push_str(out, "IN IP4 ");
            push_decimal(out, o[0] as u64);
            push_str(out, ".");
            push_decimal(out, o[1] as u64);
            push_str(out, ".");
            push_decimal(out, o[2] as u64);
            push_str(out, ".");
            push_decimal(out, o[3] as u64);
        },
        IpAddress::V6(g) => {
            push_str(out, "IN IP6 ");
            push_hex(out, g[0] as u64, 4);
            push_str(out, ":");
            push_hex(out, g[1] as u64, 4);
            push_str(out, ":");
            push_hex(out, g[2] as u64, 4);
            push_str(out, ":");
            push_hex(out, g[3] as u64, 4);
            push_str(out, ":");
            push_hex(out, g[4] as u64, 4);
            push_str(out, ":");
            push_hex(out, g[5] as u64, 4);
            push_str(out, ":");
            push_hex(out, g[6] as u64, 4);
            push_str(out, ":");
            push_hex(out, g[7] as u64, 4);
        },
    }
    assert(final(out)@ =~= old(out)@ + address_text(ip));
}

/// The SDP description of the stream served from `server_ip`, with the
/// latest parameter sets seen.
pub fn session_description(server_ip: IpAddress, sps: &Option<Vec<u8>>, pps: &Option<Vec<u8>>) -> (r: Vec<u8>)
    ensures
        r@ == sdp(server_ip, opt_view(*sps), opt_view(*pps)),
{
    let mut out: Vec<u8> = Vec::new();
    push_str(&mut out, "v=0\r\n");
    push_str(&mut out, "o=- 0 0 ");
    push_address(&mut out, server_ip);
    push_str(&mut out, "\r\n");
    push_str(
        &mut out,
        "s=Simulation Media Server\r\nc=IN IP4 0.0.0.0\r\nt=0 0\r\nm=video 0 RTP/AVP 96\r\na=rtpmap:96 H264/90000\r\n",
    );
    let ghost before = out@;
    match (sps, pps) {
        (Some(a), Some(b)) if a.len() >= 4 => {
            push_str(&mut out, "a=fmtp:96 packetization-mode=1;profile-level-id=");
            push_hex(&mut out, a[1] as u64, 2);
            push_hex(&mut out, a[2] as u64, 2);
            push_hex(&mut out, a[3] as u64, 2);
            push_str(&mut out, ";sprop-parameter-sets=");
            push_base64(&mut out, a.as_slice());
            push_str(&mut out, ",");
            push_base64(&mut out, b.as_slice());
            push_str(&mut out, "\r\n");
        },
        _ => {
            push_str(&mut out, "a=fmtp:96 packetization-mode=1\r\n");
        },
    }
    assert(out@ =~= before + fmtp_line(opt_view(*sps), opt_view(*pps)));
    push_str(&mut out, "a=control:track1\r\n");
    assert(out@ =~= sdp(server_ip, opt_view(*sps), opt_view(*pps)));
    out
}

} // verus!
