//! The per-connection RTSP session: state machine, registry updates and
//! response text.
use vstd::prelude::*;
use vstd::string::StringSliceAdditionalSpecFns;
use crate::registry::{
    with_client, with_playing, without, ClientInfo, IpAddress, ServerState, SockAddr,
    TransportMode,
};
use crate::rtsp::{
    cseq_echo, opt_view, parse_request, parse_transport, request_echo, request_of, session_value,
    transport_of, Method, RequestView, RtspRequest, TransportRequest,
};
use crate::text::{decimal, hex_digits, push_decimal, push_hex, push_str};
use crate::wire::push_all;

verus! {

/// Where a session stands.
#[derive(Clone, Copy, Debug, PartialEq, Eq, Structural)]
pub enum SessionState {
    Init,
    Ready,
    Playing,
    Teardown,
}

/// The server's RTP and RTCP ports, announced to UDP clients.
pub const SERVER_RTP_PORT: u16 = 6000;
pub const SERVER_RTCP_PORT: u16 = 6001;

/// Status line and CSeq header.
pub open spec fn head(code: nat, reason: Seq<u8>, cseq: u32) -> Seq<u8> {
    "RTSP/1.0 ".spec_bytes() + decimal(code) + " ".spec_bytes() + reason + "\r\n".spec_bytes()
        + "CSeq: ".spec_bytes() + decimal(cseq as nat) + "\r\n".spec_bytes()
}

/// A Session header with value `v`.
pub open spec fn session_line(v: Seq<u8>) -> Seq<u8> {
    "Session: ".spec_bytes() + v + "\r\n".spec_bytes()
}

/// The Session header naming the session `id`.
pub open spec fn own_session(id: u64) -> Seq<u8> {
    session_line(hex_digits(id as nat, 16))
}

/// The Session header echoed to a request that carried `carried`: the
/// session's id once it has one, the request's own value before.
pub open spec fn echoed(s: SessionView, carried: Option<Seq<u8>>) -> Seq<u8> {
    match carried {
        None => Seq::empty(),
        Some(v) => if s.state == SessionState::Init {
            session_line(v)
        } else {
            own_session(s.session_id)
        },
    }
}

/// A response: status, CSeq, the Session header `session` (possibly
/// empty), further headers, and the blank line.
pub open spec fn reply(code: nat, reason: Seq<u8>, cseq: u32, session: Seq<u8>, headers: Seq<u8>) -> Seq<u8> {
    head(code, reason, cseq) + session + headers + "\r\n".spec_bytes()
}

pub open spec fn public_header() -> Seq<u8> {
    "Public: OPTIONS, DESCRIBE, SETUP, PLAY, PAUSE, TEARDOWN\r\n".spec_bytes()
}

pub open spec fn describe_headers(body: Seq<u8>) -> Seq<u8> {
    "Content-Type: application/sdp\r\n".spec_bytes() + "Content-Length: ".spec_bytes() + decimal(
        body.len(),
    ) + "\r\n".spec_bytes()
}

/// The Transport value of a SETUP response.
pub open spec fn transport_echo(t: TransportRequest) -> Seq<u8> {
    match t {
        TransportRequest::Udp { rtp_port, rtcp_port } => "RTP/AVP;unicast;client_port=".spec_bytes()
            + decimal(rtp_port as nat) + "-".spec_bytes() + decimal(rtcp_port as nat)
            + ";server_port=6000-6001".spec_bytes(),
        TransportRequest::Tcp { rtp_channel, rtcp_channel } => "RTP/AVP/TCP;unicast;interleaved=".spec_bytes()
            + decimal(rtp_channel as nat) + "-".spec_bytes() + decimal(rtcp_channel as nat),
    }
}

pub open spec fn rtp_info(uri: Seq<u8>, seq: u16, rtptime: u32) -> Seq<u8> {
    "RTP-Info: url=".spec_bytes() + uri + ";seq=".spec_bytes() + decimal(seq as nat) + ";rtptime=".spec_bytes()
        + decimal(rtptime as nat) + "\r\n".spec_bytes()
}

/// The transport a client gets for a Transport request.
pub open spec fn mode_for(t: TransportRequest, ip: IpAddress) -> TransportMode {
    match t {
        TransportRequest::Udp { rtp_port, rtcp_port } => TransportMode::Udp {
            rtp_addr: SockAddr { ip, port: rtp_port },
            rtcp_addr: SockAddr { ip, port: rtcp_port },
        },
        TransportRequest::Tcp { rtp_channel, rtcp_channel } => TransportMode::TcpInterleaved {
            rtp_channel,
            rtcp_channel,
        },
    }
}

/// The abstract state of a session.
pub struct SessionView {
    pub state: SessionState,
    pub session_id: u64,
    pub client_ip: IpAddress,
    pub transport: Option<TransportMode>,
    pub uri: Seq<u8>,
}

/// The outcome of one request: next session state, next registry, and
/// the response bytes.
pub struct Step {
    pub session: SessionView,
    pub clients: Seq<ClientInfo>,
    pub response: Seq<u8>,
}

pub open spec fn error_step(s: SessionView, reg: Seq<ClientInfo>, code: nat, reason: Seq<u8>, req: RequestView) -> Step {
    Step {
        session: s,
        clients: reg,
        response: reply(code, reason, req.cseq, echoed(s, req.session), Seq::empty()),
    }
}

pub open spec fn not_valid(s: SessionView, reg: Seq<ClientInfo>, req: RequestView) -> Step {
    error_step(s, reg, 455, "Method Not Valid in This State".spec_bytes(), req)
}

/// SETUP: negotiate the transport, take a session id that no other client
/// holds, and register the client as ready.
pub open spec fn setup_step(s: SessionView, reg: Seq<ClientInfo>, req: RequestView, fresh: Option<u64>) -> Step {
    if s.state == SessionState::Playing || s.state == SessionState::Teardown {
        not_valid(s, reg, req)
    } else {
        let t = match req.transport {
            Some(v) => transport_of(v),
            None => None,
        };
        match t {
            None => error_step(s, reg, 461, "Unsupported Transport".spec_bytes(), req),
            Some(tr) => {
                let id = if s.state == SessionState::Init { fresh } else { Some(s.session_id) };
                match id {
                    None => error_step(s, reg, 503, "Service Unavailable".spec_bytes(), req),
                    Some(id) => {
                        let mode = mode_for(tr, s.client_ip);
                        Step {
                            session: SessionView {
                                state: SessionState::Ready,
                                session_id: id,
                                transport: Some(mode),
                                uri: req.uri,
                                ..s
                            },
                            clients: with_client(reg, ClientInfo { id, transport: mode, is_playing: false }),
                            response: reply(200, "OK".spec_bytes(), req.cseq, own_session(id),
                                "Transport: ".spec_bytes() + transport_echo(tr) + "\r\n".spec_bytes()),
                        }
                    },
                }
            },
        }
    }
}

/// What the session does with request bytes `bytes`, given the registry,
/// the id proposal for a first SETUP (`fresh`), the stream's next
/// sequence number and current timestamp, and its SDP description.
pub open spec fn step(
    s: SessionView,
    reg: Seq<ClientInfo>,
    bytes: Seq<u8>,
    fresh: Option<u64>,
    seq: u16,
    rtptime: u32,
    description: Seq<u8>,
) -> Step {
    match request_of(bytes) {
        Err(_) => Step {
            session: s,
            clients: reg,
            response: reply(
                400,
                "Bad Request".spec_bytes(),
                cseq_echo(bytes),
                echoed(s, session_value(bytes)),
                Seq::empty(),
            ),
        },
        Ok(req) => {
            let echo = echoed(s, req.session);
            match req.method {
                Method::Options => Step {
                    session: s,
                    clients: reg,
                    response: reply(200, "OK".spec_bytes(), req.cseq, echo, public_header()),
                },
                Method::Describe => Step {
                    session: s,
                    clients: reg,
                    response: reply(200, "OK".spec_bytes(), req.cseq, echo, describe_headers(description)) + description,
                },
                Method::Setup => setup_step(s, reg, req, fresh),
                Method::Play => if s.state == SessionState::Ready {
                    Step {
                        session: SessionView { state: SessionState::Playing, ..s },
                        clients: with_playing(reg, s.session_id, true),
                        response: reply(200, "OK".spec_bytes(), req.cseq, own_session(s.session_id), rtp_info(s.uri, seq, rtptime)),
                    }
                } else {
                    not_valid(s, reg, req)
                },
                Method::Pause => if s.state == SessionState::Playing {
                    Step {
                        session: SessionView { state: SessionState::Ready, ..s },
                        clients: with_playing(reg, s.session_id, false),
                        response: reply(200, "OK".spec_bytes(), req.cseq, own_session(s.session_id), Seq::empty()),
                    }
                } else {
                    not_valid(s, reg, req)
                },
                Method::Teardown => if s.state == SessionState::Teardown {
                    not_valid(s, reg, req)
                } else {
                    Step {
                        session: SessionView { state: SessionState::Teardown, ..s },
                        clients: if s.state == SessionState::Init { reg } else { without(reg, s.session_id) },
                        response: reply(
                            200,
                            "OK".spec_bytes(),
                            req.cseq,
                            if s.state == SessionState::Init { echoed(s, req.session) } else { own_session(s.session_id) },
                            Seq::empty(),
                        ),
                    }
                },
                Method::Other => error_step(s, reg, 405, "Method Not Allowed".spec_bytes(), req),
            }
        },
    }
}

/// One client's RTSP session.
pub struct RtspSession {
    state: SessionState,
    session_id: u64,
    client_ip: IpAddress,
    transport: Option<TransportMode>,
    uri: Vec<u8>,
}

impl View for RtspSession {
    type V = SessionView;

    closed spec fn view(&self) -> SessionView {
        SessionView {
            state: self.state,
            session_id: self.session_id,
            client_ip: self.client_ip,
            transport: self.transport,
            uri: self.uri@,
        }
    }
}

fn own_session_header(id: u64) -> (r: Vec<u8>)
    ensures
        r@ == own_session(id),
{
    let mut out: Vec<u8> = Vec::new();
    push_str(&mut out, "Session: ");
    push_hex(&mut out, id, 16);
    push_str(&mut out, "\r\n");
    assert(out@ =~= own_session(id));
    out
}

fn push_head(out: &mut Vec<u8>, code: u64, reason: &str, cseq: u32)
    ensures
        final(out)@ == old(out)@ + head(code as nat, reason.spec_bytes(), cseq),
{
    push_str(out, "RTSP/1.0 ");
    push_decimal(out, code);
    push_str(out, " ");
    push_str(out, reason);
    push_str(out, "\r\n");
    push_str(out, "CSeq: ");
    push_decimal(out, cseq as u64);
    push_str(out, "\r\n");
    assert(final(out)@ =~= old(out)@ + head(code as nat, reason.spec_bytes(), cseq));
}

/// A complete response with Session header `session` and further headers
/// `headers`.
fn build_reply(code: u64, reason: &str, cseq: u32, session: &[u8], headers: &[u8]) -> (r: Vec<u8>)
    ensures
        r@ == reply(code as nat, reason.spec_bytes(), cseq, session@, headers@),
{
    let mut out: Vec<u8> = Vec::new();
    push_head(&mut out, code, reason, cseq);
    push_all(&mut out, session);
    push_all(&mut out, headers);
    push_str(&mut out, "\r\n");
    assert(out@ =~= reply(code as nat, reason.spec_bytes(), cseq, session@, headers@));
    out
}

impl RtspSession {
    /// A session in state INIT for a client at `client_ip`; `session_id`
    /// is the id it proposes at its first SETUP.
    pub fn new(session_id: u64, client_ip: IpAddress) -> (s: RtspSession)
        ensures
            s@ == (SessionView {
                state: SessionState::Init,
                session_id,
                client_ip,
                transport: None,
                uri: Seq::empty(),
            }),
    {
        RtspSession { state: SessionState::Init, session_id, client_ip, transport: None, uri: Vec::new() }
    }

    pub fn state(&self) -> (r: SessionState)
        ensures
            r == self@.state,
    {
        self.state
    }

    pub fn session_id(&self) -> (r: u64)
        ensures
            r == self@.session_id,
    {
        self.session_id
    }

    pub fn transport(&self) -> (r: Option<TransportMode>)
        ensures
            r == self@.transport,
    {
        self.transport
    }

    /// The Session header to echo for a request that carried `carried`.
    fn echoed_session(&self, carried: &Option<Vec<u8>>) -> (r: Vec<u8>)
        ensures
            r@ == echoed(self@, opt_view(*carried)),
    {
        match carried {
            None => Vec::new(),
            Some(v) => {
                if self.state == SessionState::Init {
                    let mut out: Vec<u8> = Vec::new();
                    push_str(&mut out, "Session: ");
                    push_all(&mut out, v.as_slice());
                    push_str(&mut out, "\r\n");
                    assert(out@ =~= session_line(v@));
                    out
                } else {
                    own_session_header(self.session_id)
                }
            },
        }
    }

    fn error_response(&self, code: u64, reason: &str, req_cseq: u32, carried: &Option<Vec<u8>>) -> (r: Vec<u8>)
        ensures
            r@ == reply(code as nat, reason.spec_bytes(), req_cseq, echoed(self@, opt_view(*carried)), Seq::empty()),
    {
        let echo = self.echoed_session(carried);
        let none: Vec<u8> = Vec::new();
        build_reply(code, reason, req_cseq, echo.as_slice(), none.as_slice())
    }

    /// Answers one request, updating the session and the registry.
    pub fn process_request(
        &mut self,
        request: &[u8],
        registry: &mut ServerState,
        seq: u16,
        rtptime: u32,
        description: &[u8],
    ) -> (response: Vec<u8>)
        requires
            old(registry).wf(),
        ensures
            final(registry).wf(),
            ({
                let st = step(old(self)@, old(registry)@, request@, old(registry).fresh_spec(old(self)@.session_id), seq, rtptime, description@);
                &&& final(self)@ == st.session
                &&& final(registry)@ == st.clients
                &&& response@ == st.response
            }),
    {
        let req = match parse_request(request) {
            Err(_) => {
                let (cseq, carried) = request_echo(request);
                return self.error_response(400, "Bad Request", cseq, &carried);
            },
            Ok(r) => r,
        };
        let echo = self.echoed_session(&req.session);
        match req.method {
            Method::Options => {
                let mut h: Vec<u8> = Vec::new();
                push_str(&mut h, "Public: OPTIONS, DESCRIBE, SETUP, PLAY, PAUSE, TEARDOWN\r\n");
                build_reply(200, "OK", req.cseq, echo.as_slice(), h.as_slice())
            },
            Method::Describe => {
                let mut h: Vec<u8> = Vec::new();
                push_str(&mut h, "Content-Type: application/sdp\r\n");
                push_str(&mut h, "Content-Length: ");
                push_decimal(&mut h, description.len() as u64);
                push_str(&mut h, "\r\n");
                assert(h@ =~= describe_headers(description@));
                let mut out = build_reply(200, "OK", req.cseq, echo.as_slice(), h.as_slice());
                push_all(&mut out, description);
                out
            },
            Method::Setup => self.handle_setup(&req, registry),
            Method::Play => {
                if self.state != SessionState::Ready {
                    return self.error_response(455, "Method Not Valid in This State", req.cseq, &req.session);
                }
                registry.set_playing(self.session_id, true);
                self.state = SessionState::Playing;
                let mut h: Vec<u8> = Vec::new();
                push_str(&mut h, "RTP-Info: url=");
                push_all(&mut h, self.uri.as_slice());
                push_str(&mut h, ";seq=");
                push_decimal(&mut h, seq as u64);
                push_str(&mut h, ";rtptime=");
                push_decimal(&mut h, rtptime as u64);
                push_str(&mut h, "\r\n");
                assert(h@ =~= rtp_info(self.uri@, seq, rtptime));
                let own = own_session_header(self.session_id);
                build_reply(200, "OK", req.cseq, own.as_slice(), h.as_slice())
            },
            Method::Pause => {
                if self.state != SessionState::Playing {
                    return self.error_response(455, "Method Not Valid in This State", req.cseq, &req.session);
                }
                registry.set_playing(self.session_id, false);
                self.state = SessionState::Ready;
                let none: Vec<u8> = Vec::new();
                let own = own_session_header(self.session_id);
                build_reply(200, "OK", req.cseq, own.as_slice(), none.as_slice())
            },
            Method::Teardown => {
                if self.state == SessionState::Teardown {
                    return self.error_response(455, "Method Not Valid in This State", req.cseq, &req.session);
                }
                let echo = if self.state == SessionState::Init {
                    self.echoed_session(&req.session)
                } else {
                    own_session_header(self.session_id)
                };
                if self.state != SessionState::Init {
                    registry.remove_client(self.session_id);
                }
                self.state = SessionState::Teardown;
                let none: Vec<u8> = Vec::new();
                build_reply(200, "OK", req.cseq, echo.as_slice(), none.as_slice())
            },
            Method::Other => self.error_response(405, "Method Not Allowed", req.cseq, &req.session),
        }
    }

    fn handle_setup(&mut self, req: &RtspRequest, registry: &mut ServerState) -> (response: Vec<u8>)
        requires
            old(registry).wf(),
            req@.method == Method::Setup,
        ensures
            final(registry).wf(),
            ({
                let st = setup_step(old(self)@, old(registry)@, req@, old(registry).fresh_spec(old(self)@.session_id));
                &&& final(self)@ == st.session
                &&& final(registry)@ == st.clients
                &&& response@ == st.response
            }),
    {
        if self.state == SessionState::Playing || self.state == SessionState::Teardown {
            return self.error_response(455, "Method Not Valid in This State", req.cseq, &req.session);
        }
        let t = match &req.transport {
            Some(v) => parse_transport(v.as_slice()),
            None => None,
        };
        let tr = match t {
            None => {
                return self.error_response(461, "Unsupported Transport", req.cseq, &req.session);
            },
            Some(tr) => tr,
        };
        let id = if self.state == SessionState::Init {
            registry.fresh_id(self.session_id)
        } else {
            Some(self.session_id)
        };
        let id = match id {
            None => {
                return self.error_response(503, "Service Unavailable", req.cseq, &req.session);
            },
            Some(id) => id,
        };
        let mut h: Vec<u8> = Vec::new();
        push_str(&mut h, "Transport: ");
        let mode = match tr {
            TransportRequest::Udp { rtp_port, rtcp_port } => {
                push_str(&mut h, "RTP/AVP;unicast;client_port=");
                push_decimal(&mut h, rtp_port as u64);
                push_str(&mut h, "-");
                push_decimal(&mut h, rtcp_port as u64);
                push_str(&mut h, ";server_port=6000-6001");
                TransportMode::Udp {
                    rtp_addr: SockAddr { ip: self.client_ip, port: rtp_port },
                    rtcp_addr: SockAddr { ip: self.client_ip, port: rtcp_port },
                }
            },
            TransportRequest::Tcp { rtp_channel, rtcp_channel } => {
                push_str(&mut h, "RTP/AVP/TCP;unicast;interleaved=");
                push_decimal(&mut h, rtp_channel as u64);
                push_str(&mut h, "-");
                push_decimal(&mut h, rtcp_channel as u64);
                TransportMode::TcpInterleaved { rtp_channel, rtcp_channel }
            },
        };
        push_str(&mut h, "\r\n");
        assert(h@ =~= "Transport: ".spec_bytes() + transport_echo(tr) + "\r\n".spec_bytes());
        registry.add_client(ClientInfo { id, transport: mode, is_playing: false });
        self.state = SessionState::Ready;
        self.session_id = id;
        self.transport = Some(mode);
        let mut uri: Vec<u8> = Vec::new();
        push_all(&mut uri, req.uri.as_slice());
        self.uri = uri;
        let own = own_session_header(id);
        build_reply(200, "OK", req.cseq, own.as_slice(), h.as_slice())
    }

    /// The control connection closed: the client leaves the registry.
    pub fn close(&mut self, registry: &mut ServerState)
        requires
            old(registry).wf(),
        ensures
            final(registry).wf(),
            final(self)@ == (SessionView { state: SessionState::Teardown, ..old(self)@ }),
            final(registry)@ == if old(self)@.state == SessionState::Init {
                old(registry)@
            } else {
                without(old(registry)@, old(self)@.session_id)
            },
    {
        if self.state != SessionState::Init {
            registry.remove_client(self.session_id);
        }
        self.state = SessionState::Teardown;
    }
}

} // verus!
