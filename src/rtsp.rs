//! RTSP request parsing: the request line, the CSeq, Session and Transport
//! headers, and the Transport header's parameters.
use vstd::prelude::*;
use vstd::string::StringSliceAdditionalSpecFns;
use crate::text::{
    lemma_split_nonempty, bytes_eq, parse_decimal, parse_decimal_in, split, split_bytes, starts_with, trim,
    trimmed,
};
use crate::wire::push_all;

verus! {

/// The RTSP methods this server knows.
#[derive(Clone, Copy, Debug, PartialEq, Eq, Structural)]
pub enum Method {
    Options,
    Describe,
    Setup,
    Play,
    Pause,
    Teardown,
    Other,
}

pub open spec fn method_of(m: Seq<u8>) -> Method {
    if m == "OPTIONS".spec_bytes() {
        Method::Options
    } else if m == "DESCRIBE".spec_bytes() {
        Method::Describe
    } else if m == "SETUP".spec_bytes() {
        Method::Setup
    } else if m == "PLAY".spec_bytes() {
        Method::Play
    } else if m == "PAUSE".spec_bytes() {
        Method::Pause
    } else if m == "TEARDOWN".spec_bytes() {
        Method::Teardown
    } else {
        Method::Other
    }
}

/// A line without its carriage return.
pub open spec fn strip_cr(l: Seq<u8>) -> Seq<u8> {
    if l.len() > 0 && l.last() == 13 {
        l.drop_last()
    } else {
        l
    }
}

/// The lines of a message, split at line feeds, carriage returns dropped.
pub open spec fn lines(s: Seq<u8>) -> Seq<Seq<u8>> {
    split(s, 10).map_values(|l: Seq<u8>| strip_cr(l))
}

/// `line` is a header line `name: value`.
pub open spec fn header_named(line: Seq<u8>, name: Seq<u8>) -> bool {
    line.len() > name.len() && line.take(name.len() as int) == name && line[name.len() as int] == 58
}

/// The value of the first header `name` among `hs`, before the blank line
/// that ends the headers.
pub open spec fn header_value(hs: Seq<Seq<u8>>, name: Seq<u8>) -> Option<Seq<u8>>
    decreases hs.len(),
{
    if hs.len() == 0 || hs[0].len() == 0 {
        None
    } else if header_named(hs[0], name) {
        Some(trim(hs[0].skip(name.len() + 1 as int)))
    } else {
        header_value(hs.drop_first(), name)
    }
}

/// Why a request could not be read.
#[derive(Clone, Copy, Debug, PartialEq, Eq, Structural)]
pub enum ParseError {
    /// The request line does not hold a method and a URI.
    BadRequestLine,
    /// No CSeq header, or one that is not a 32-bit decimal number.
    BadCSeq,
}

/// What a request says, as the parser reads it.
pub struct RequestView {
    pub method: Method,
    pub uri: Seq<u8>,
    pub cseq: u32,
    pub session: Option<Seq<u8>>,
    pub transport: Option<Seq<u8>>,
}

/// The meaning of request bytes `s`.
pub open spec fn request_of(s: Seq<u8>) -> Result<RequestView, ParseError> {
    let ls = lines(s);
    let parts = split(ls[0], 32);
    let hs = ls.drop_first();
    if parts.len() < 2 || parts[0].len() == 0 || parts[1].len() == 0 {
        Err(ParseError::BadRequestLine)
    } else {
        match header_value(hs, "CSeq".spec_bytes()) {
            None => Err(ParseError::BadCSeq),
            Some(v) => match parse_decimal(v, 0xffff_ffff) {
                None => Err(ParseError::BadCSeq),
                Some(c) => Ok(
                    RequestView {
                        method: method_of(parts[0]),
                        uri: parts[1],
                        cseq: c as u32,
                        session: header_value(hs, "Session".spec_bytes()),
                        transport: header_value(hs, "Transport".spec_bytes()),
                    },
                ),
            },
        }
    }
}

pub open spec fn opt_view(o: Option<Vec<u8>>) -> Option<Seq<u8>> {
    match o {
        Some(v) => Some(v@),
        None => None,
    }
}

/// A parsed RTSP request.
#[derive(Debug)]
pub struct RtspRequest {
    pub method: Method,
    pub uri: Vec<u8>,
    pub cseq: u32,
    pub session: Option<Vec<u8>>,
    pub transport: Option<Vec<u8>>,
}

impl View for RtspRequest {
    type V = RequestView;

    open spec fn view(&self) -> RequestView {
        RequestView {
            method: self.method,
            uri: self.uri@,
            cseq: self.cseq,
            session: opt_view(self.session),
            transport: opt_view(self.transport),
        }
    }
}

fn method_from(m: &[u8]) -> (r: Method)
    ensures
        r == method_of(m@),
{
    if bytes_eq(m, "OPTIONS".as_bytes()) {
        Method::Options
    } else if bytes_eq(m, "DESCRIBE".as_bytes()) {
        Method::Describe
    } else if bytes_eq(m, "SETUP".as_bytes()) {
        Method::Setup
    } else if bytes_eq(m, "PLAY".as_bytes()) {
        Method::Play
    } else if bytes_eq(m, "PAUSE".as_bytes()) {
        Method::Pause
    } else if bytes_eq(m, "TEARDOWN".as_bytes()) {
        Method::Teardown
    } else {
        Method::Other
    }
}

fn message_lines(s: &[u8]) -> (r: Vec<Vec<u8>>)
    ensures
        r@.map_values(|l: Vec<u8>| l@) == lines(s@),
{
    let pieces = split_bytes(s, 10);
    let mut r: Vec<Vec<u8>> = Vec::new();
    let mut i: usize = 0;
    while i < pieces.len()
        invariant
            i <= pieces@.len(),
            pieces@.map_values(|p: Vec<u8>| p@) == split(s@, 10),
            r@.map_values(|l: Vec<u8>| l@) == lines(s@).take(i as int),
        decreases pieces@.len() - i,
    {
        let p = &pieces[i];
        let n = p.len();
        let mut l: Vec<u8> = Vec::new();
        if n > 0 && p[n - 1] == 13 {
            push_all(&mut l, &p.as_slice()[0..n - 1]);
            assert(l@ =~= p@.drop_last());
        } else {
            push_all(&mut l, p.as_slice());
        }
        assert(pieces@.map_values(|p: Vec<u8>| p@)[i as int] == p@);
        assert(split(s@, 10)[i as int] == p@);
        assert(l@ == strip_cr(p@));
        assert(lines(s@)[i as int] == strip_cr(p@));
        let ghost prev = r@.map_values(|l: Vec<u8>| l@);
        let ghost lv = l@;
        r.push(l);
        assert(r@.map_values(|l: Vec<u8>| l@) =~= prev.push(lv));
        assert(lines(s@).take(i + 1) =~= lines(s@).take(i as int).push(lines(s@)[i as int]));
        i = i + 1;
    }
    assert(lines(s@).take(i as int) =~= lines(s@));
    r
}

/// The value of the first header `name` in `ls` after the request line.
fn find_header(ls: &Vec<Vec<u8>>, name: &str) -> (r: Option<Vec<u8>>)
    requires
        ls@.len() >= 1,
    ensures
        opt_view(r) == header_value(ls@.map_values(|l: Vec<u8>| l@).drop_first(), name.spec_bytes()),
{
    let ghost hs = ls@.map_values(|l: Vec<u8>| l@).drop_first();
    let key = name.as_bytes();
    let mut i: usize = 1;
    assert(hs.skip(0) =~= hs);
    while i < ls.len()
        invariant
            1 <= i <= ls@.len(),
            hs == ls@.map_values(|l: Vec<u8>| l@).drop_first(),
            key@ == name.spec_bytes(),
            header_value(hs, key@) == header_value(hs.skip(i - 1), key@),
        decreases ls@.len() - i,
    {
        let line = &ls[i];
        let ghost rest = hs.skip(i - 1);
        assert(rest[0] == line@);
        if line.len() == 0 {
            return None;
        }
        let k = key.len();
        if line.len() > k && starts_with(line.as_slice(), key) && line[k] == 58 {
            let v = trimmed(&line.as_slice()[k + 1..line.len()]);
            assert(line@.subrange(k + 1, line@.len() as int) =~= line@.skip(k + 1));
            return Some(v);
        }
        assert(rest.drop_first() =~= hs.skip(i as int));
        i = i + 1;
    }
    assert(hs.skip(i - 1).len() == 0);
    None
}

/// Reads an RTSP request.
pub fn parse_request(s: &[u8]) -> (r: Result<RtspRequest, ParseError>)
    ensures
        r matches Ok(req) ==> request_of(s@) == Ok::<RequestView, ParseError>(req@),
        r matches Err(e) ==> request_of(s@) == Err::<RequestView, ParseError>(e),
{
    let ls = message_lines(s);
    proof {
        lemma_split_nonempty(s@, 10);
    }
    let parts = split_bytes(ls[0].as_slice(), 32);
    assert(ls@.map_values(|l: Vec<u8>| l@)[0] == ls@[0]@);
    if parts.len() < 2 || parts[0].len() == 0 || parts[1].len() == 0 {
        return Err(ParseError::BadRequestLine);
    }
    let cseq = match find_header(&ls, "CSeq") {
        None => {
            return Err(ParseError::BadCSeq);
        },
        Some(v) => match parse_decimal_in(v.as_slice(), 0xffff_ffff) {
            None => {
                return Err(ParseError::BadCSeq);
            },
            Some(c) => c,
        },
    };
    let method = method_from(parts[0].as_slice());
    let mut uri: Vec<u8> = Vec::new();
    push_all(&mut uri, parts[1].as_slice());
    let session = find_header(&ls, "Session");
    let transport = find_header(&ls, "Transport");
    Ok(RtspRequest { method, uri, cseq, session, transport })
}

/// The CSeq to echo for request bytes `s`: its CSeq header when that is a
/// 32-bit decimal number, else 0.
pub open spec fn cseq_echo(s: Seq<u8>) -> u32 {
    match header_value(lines(s).drop_first(), "CSeq".spec_bytes()) {
        Some(v) => match parse_decimal(v, 0xffff_ffff) {
            Some(c) => c as u32,
            None => 0,
        },
        None => 0,
    }
}

/// The value of the Session header of request bytes `s`, if any.
pub open spec fn session_value(s: Seq<u8>) -> Option<Seq<u8>> {
    header_value(lines(s).drop_first(), "Session".spec_bytes())
}

/// The CSeq to echo and the Session value, read from request bytes that
/// may not parse as a request.
pub fn request_echo(s: &[u8]) -> (r: (u32, Option<Vec<u8>>))
    ensures
        r.0 == cseq_echo(s@),
        opt_view(r.1) == session_value(s@),
{
    let ls = message_lines(s);
    proof {
        lemma_split_nonempty(s@, 10);
    }
    let cseq = match find_header(&ls, "CSeq") {
        Some(v) => match parse_decimal_in(v.as_slice(), 0xffff_ffff) {
            Some(c) => c,
            None => 0,
        },
        None => 0,
    };
    (cseq, find_header(&ls, "Session"))
}

/// A Transport request the server can serve.
#[derive(Clone, Copy, Debug, PartialEq, Eq, Structural)]
pub enum TransportRequest {
    /// RTP and RTCP over UDP to the client's ports.
    Udp { rtp_port: u16, rtcp_port: u16 },
    /// RTP and RTCP interleaved on the RTSP connection.
    Tcp { rtp_channel: u8, rtcp_channel: u8 },
}

/// The parameters of a Transport value, trimmed.
pub open spec fn transport_tokens(v: Seq<u8>) -> Seq<Seq<u8>> {
    split(v, 59).map_values(|t: Seq<u8>| trim(t))
}

/// What follows `key` in the first token that starts with it.
pub open spec fn param(ts: Seq<Seq<u8>>, key: Seq<u8>) -> Option<Seq<u8>>
    decreases ts.len(),
{
    if ts.len() == 0 {
        None
    } else if key.len() <= ts[0].len() && ts[0].take(key.len() as int) == key {
        Some(ts[0].skip(key.len() as int))
    } else {
        param(ts.drop_first(), key)
    }
}

/// `lo-hi`, or `lo` alone meaning `lo-(lo+1)`, each at most `max`.
pub open spec fn range_of(v: Seq<u8>, max: nat) -> Option<(nat, nat)> {
    let ps = split(v, 45);
    if ps.len() == 1 {
        match parse_decimal(ps[0], (max - 1) as nat) {
            Some(lo) => if max >= 1 {
                Some((lo, lo + 1))
            } else {
                None
            },
            None => None,
        }
    } else if ps.len() == 2 {
        match (parse_decimal(ps[0], max), parse_decimal(ps[1], max)) {
            (Some(lo), Some(hi)) => Some((lo, hi)),
            _ => None,
        }
    } else {
        None
    }
}

/// The transport that a Transport header value asks for, if the server
/// serves it: unicast RTP/AVP over UDP with client ports, or over TCP with
/// interleaved channels.
pub open spec fn transport_of(v: Seq<u8>) -> Option<TransportRequest> {
    let ts = transport_tokens(v);
    if ts.contains("multicast".spec_bytes()) || !ts.contains("unicast".spec_bytes()) {
        None
    } else if ts[0] == "RTP/AVP".spec_bytes() || ts[0] == "RTP/AVP/UDP".spec_bytes() {
        match param(ts, "client_port=".spec_bytes()) {
            Some(p) => match range_of(p, 0xffff) {
                Some((lo, hi)) => Some(TransportRequest::Udp { rtp_port: lo as u16, rtcp_port: hi as u16 }),
                None => None,
            },
            None => None,
        }
    } else if ts[0] == "RTP/AVP/TCP".spec_bytes() {
        match param(ts, "interleaved=".spec_bytes()) {
            Some(p) => match range_of(p, 0xff) {
                Some((lo, hi)) => Some(TransportRequest::Tcp { rtp_channel: lo as u8, rtcp_channel: hi as u8 }),
                None => None,
            },
            None => None,
        }
    } else {
        None
    }
}

fn tokens_of(v: &[u8]) -> (r: Vec<Vec<u8>>)
    ensures
        r@.map_values(|t: Vec<u8>| t@) == transport_tokens(v@),
        r@.len() >= 1,
{
    proof {
        lemma_split_nonempty(v@, 59);
    }
    let pieces = split_bytes(v, 59);
    let mut r: Vec<Vec<u8>> = Vec::new();
    let mut i: usize = 0;
    while i < pieces.len()
        invariant
            i <= pieces@.len(),
            pieces@.map_values(|p: Vec<u8>| p@) == split(v@, 59),
            r@.map_values(|t: Vec<u8>| t@) == transport_tokens(v@).take(i as int),
        decreases pieces@.len() - i,
    {
        let t = trimmed(pieces[i].as_slice());
        assert(pieces@.map_values(|p: Vec<u8>| p@)[i as int] == pieces@[i as int]@);
        assert(split(v@, 59)[i as int] == pieces@[i as int]@);
        assert(transport_tokens(v@)[i as int] == trim(pieces@[i as int]@));
        let ghost prev = r@.map_values(|t: Vec<u8>| t@);
        let ghost tv = t@;
        r.push(t);
        assert(r@.map_values(|t: Vec<u8>| t@) =~= prev.push(tv));
        assert(transport_tokens(v@).take(i + 1) =~= transport_tokens(v@).take(i as int).push(
            transport_tokens(v@)[i as int],
        ));
        i = i + 1;
    }
    assert(transport_tokens(v@).take(i as int) =~= transport_tokens(v@));
    r
}

fn has_token(ts: &Vec<Vec<u8>>, t: &str) -> (r: bool)
    ensures
        r == ts@.map_values(|x: Vec<u8>| x@).contains(t.spec_bytes()),
{
    let ghost m = ts@.map_values(|x: Vec<u8>| x@);
    let mut i: usize = 0;
    while i < ts.len()
        invariant
            i <= ts@.len(),
            m == ts@.map_values(|x: Vec<u8>| x@),
            forall|k: int| 0 <= k < i ==> m[k] != t.spec_bytes(),
        decreases ts@.len() - i,
    {
        if bytes_eq(ts[i].as_slice(), t.as_bytes()) {
            assert(m[i as int] == t.spec_bytes());
            return true;
        }
        i = i + 1;
    }
    false
}

fn find_param(ts: &Vec<Vec<u8>>, key: &str) -> (r: Option<Vec<u8>>)
    ensures
        opt_view(r) == param(ts@.map_values(|x: Vec<u8>| x@), key.spec_bytes()),
{
    let ghost m = ts@.map_values(|x: Vec<u8>| x@);
    let k = key.as_bytes();
    let mut i: usize = 0;
    assert(m.skip(0) =~= m);
    while i < ts.len()
        invariant
            i <= ts@.len(),
            m == ts@.map_values(|x: Vec<u8>| x@),
            k@ == key.spec_bytes(),
            param(m, k@) == param(m.skip(i as int), k@),
        decreases ts@.len() - i,
    {
        let t = &ts[i];
        assert(m.skip(i as int)[0] == t@);
        if starts_with(t.as_slice(), k) {
            let mut v: Vec<u8> = Vec::new();
            push_all(&mut v, &t.as_slice()[k.len()..t.len()]);
            assert(v@ =~= t@.skip(k@.len() as int));
            return Some(v);
        }
        assert(m.skip(i as int).drop_first() =~= m.skip(i + 1));
        i = i + 1;
    }
    None
}

fn parse_range(v: &[u8], max: u32) -> (r: Option<(u32, u32)>)
    requires
        max >= 1,
    ensures
        r matches Some((lo, hi)) ==> range_of(v@, max as nat) == Some((lo as nat, hi as nat)),
        r is None ==> range_of(v@, max as nat) is None,
{
    let ps = split_bytes(v, 45);
    assert(ps@.map_values(|p: Vec<u8>| p@).len() == ps@.len());
    if ps.len() == 1 {
        assert(ps@.map_values(|p: Vec<u8>| p@)[0] == ps@[0]@);
        match parse_decimal_in(ps[0].as_slice(), max - 1) {
            Some(lo) => Some((lo, lo + 1)),
            None => None,
        }
    } else if ps.len() == 2 {
        assert(ps@.map_values(|p: Vec<u8>| p@)[0] == ps@[0]@);
        assert(ps@.map_values(|p: Vec<u8>| p@)[1] == ps@[1]@);
        match (parse_decimal_in(ps[0].as_slice(), max), parse_decimal_in(ps[1].as_slice(), max)) {
            (Some(lo), Some(hi)) => Some((lo, hi)),
            _ => None,
        }
    } else {
        None
    }
}

/// Reads a Transport header value; `None` when the server cannot serve it
/// (answered with 461 Unsupported Transport).
pub fn parse_transport(v: &[u8]) -> (r: Option<TransportRequest>)
    ensures
        r == transport_of(v@),
{
    let ts = tokens_of(v);
    let ghost m = ts@.map_values(|x: Vec<u8>| x@);
    assert(m[0] == ts@[0]@);
    if has_token(&ts, "multicast") || !has_token(&ts, "unicast") {
        return None;
    }
    let first = ts[0].as_slice();
    if bytes_eq(first, "RTP/AVP".as_bytes()) || bytes_eq(first, "RTP/AVP/UDP".as_bytes()) {
        match find_param(&ts, "client_port=") {
            Some(p) => match parse_range(p.as_slice(), 0xffff) {
                Some((lo, hi)) => Some(TransportRequest::Udp { rtp_port: lo as u16, rtcp_port: hi as u16 }),
                None => None,
            },
            None => None,
        }
    } else if bytes_eq(first, "RTP/AVP/TCP".as_bytes()) {
        match find_param(&ts, "interleaved=") {
            Some(p) => match parse_range(p.as_slice(), 0xff) {
                Some((lo, hi)) => Some(TransportRequest::Tcp { rtp_channel: lo as u8, rtcp_channel: hi as u8 }),
                None => None,
            },
            None => None,
        }
    } else {
        None
    }
}

} // verus!
