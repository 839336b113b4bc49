//! The process-wide client registry: session id to client record, read
//! by the fan-out as a snapshot of the playing clients.
use vstd::prelude::*;

verus! {

/// An IP address, as the octets (IPv4) or the eight 16-bit groups (IPv6).
#[derive(Clone, Copy, Debug, PartialEq, Eq)]
pub enum IpAddress {
    V4([u8; 4]),
    V6([u16; 8]),
}

/// A socket address: IP address and port.
#[derive(Clone, Copy, Debug, PartialEq, Eq)]
pub struct SockAddr {
    pub ip: IpAddress,
    pub port: u16,
}

/// How a client receives media.
#[derive(Clone, Copy, Debug, PartialEq, Eq)]
pub enum TransportMode {
    Udp { rtp_addr: SockAddr, rtcp_addr: SockAddr },
    TcpInterleaved { rtp_channel: u8, rtcp_channel: u8 },
}

/// A client registered by SETUP.
#[derive(Clone, Copy, Debug)]
pub struct ClientInfo {
    pub id: u64,
    pub transport: TransportMode,
    pub is_playing: bool,
}

/// Position of the record of `id` in `s`, or -1.
pub open spec fn index_of(s: Seq<ClientInfo>, id: u64) -> int
    decreases s.len(),
{
    if s.len() == 0 {
        -1
    } else if s.last().id == id {
        s.len() - 1
    } else {
        index_of(s.drop_last(), id)
    }
}

/// No two records share a session id.
pub open spec fn unique_ids(s: Seq<ClientInfo>) -> bool {
    forall|i: int, j: int| 0 <= i < j < s.len() ==> s[i].id != s[j].id
}

/// The records of playing clients, in order.
pub open spec fn playing(s: Seq<ClientInfo>) -> Seq<ClientInfo>
    decreases s.len(),
{
    if s.len() == 0 {
        Seq::empty()
    } else if s.last().is_playing {
        playing(s.drop_last()).push(s.last())
    } else {
        playing(s.drop_last())
    }
}

/// The (RTP, RTCP) addresses of the playing UDP clients, in order.
pub open spec fn udp_targets(s: Seq<ClientInfo>) -> Seq<(SockAddr, SockAddr)>
    decreases s.len(),
{
    if s.len() == 0 {
        Seq::empty()
    } else {
        let rest = udp_targets(s.drop_last());
        match s.last().transport {
            TransportMode::Udp { rtp_addr, rtcp_addr } => if s.last().is_playing {
                rest.push((rtp_addr, rtcp_addr))
            } else {
                rest
            },
            _ => rest,
        }
    }
}

/// The records after registering `info`: it replaces the record of the same
/// id, or is added at the end.
pub open spec fn with_client(s: Seq<ClientInfo>, info: ClientInfo) -> Seq<ClientInfo> {
    let i = index_of(s, info.id);
    if i >= 0 {
        s.update(i, info)
    } else {
        s.push(info)
    }
}

/// The records after setting the playing flag of `id`.
pub open spec fn with_playing(s: Seq<ClientInfo>, id: u64, p: bool) -> Seq<ClientInfo> {
    let i = index_of(s, id);
    if i >= 0 {
        s.update(i, ClientInfo { is_playing: p, ..s[i] })
    } else {
        s
    }
}

/// The records after removing the one of `id`.
pub open spec fn without(s: Seq<ClientInfo>, id: u64) -> Seq<ClientInfo> {
    let i = index_of(s, id);
    if i >= 0 {
        s.remove(i)
    } else {
        s
    }
}

pub proof fn lemma_index_of(s: Seq<ClientInfo>, id: u64)
    ensures
        -1 <= index_of(s, id) < s.len(),
        index_of(s, id) >= 0 ==> s[index_of(s, id)].id == id,
        index_of(s, id) < 0 ==> forall|k: int| 0 <= k < s.len() ==> (#[trigger] s[k]).id != id,
    decreases s.len(),
{
    if s.len() > 0 {
        lemma_index_of(s.drop_last(), id);
        if s.last().id != id {
            assert forall|k: int| 0 <= k < s.len() - 1 implies (#[trigger] s[k]).id == s.drop_last()[k].id by {}
        }
    }
}

proof fn lemma_index_of_unique(s: Seq<ClientInfo>, id: u64, k: int)
    requires
        unique_ids(s),
        0 <= k < s.len(),
        s[k].id == id,
    ensures
        index_of(s, id) == k,
{
    lemma_index_of(s, id);
}

proof fn lemma_playing_avoids(s: Seq<ClientInfo>, id: u64)
    requires
        forall|k: int| 0 <= k < s.len() ==> (#[trigger] s[k]).id != id,
    ensures
        forall|j: int| 0 <= j < playing(s).len() ==> (#[trigger] playing(s)[j]).id != id,
    decreases s.len(),
{
    if s.len() > 0 {
        assert forall|k: int| 0 <= k < s.len() - 1 implies (#[trigger] s.drop_last()[k]).id != id by {
            assert(s.drop_last()[k] == s[k]);
        }
        lemma_playing_avoids(s.drop_last(), id);
        assert(s[s.len() - 1].id != id);
    }
}

/// Snapshot consistency: once the record of `id` is removed, no snapshot
/// of the playing clients holds a client with that session id.
pub proof fn lemma_removed_not_in_snapshot(s: Seq<ClientInfo>, id: u64)
    requires
        unique_ids(s),
    ensures
        forall|j: int| 0 <= j < playing(without(s, id)).len() ==> (#[trigger] playing(
            without(s, id),
        )[j]).id != id,
{
    let r = without(s, id);
    lemma_index_of(s, id);
    assert forall|k: int| 0 <= k < r.len() implies (#[trigger] r[k]).id != id by {
        let i = index_of(s, id);
        if i >= 0 {
            if k < i {
                assert(r[k] == s[k]);
            } else {
                assert(r[k] == s[k + 1]);
            }
        }
    }
    lemma_playing_avoids(r, id);
}

/// The largest session id in `s`, 0 for none.
pub open spec fn max_id(s: Seq<ClientInfo>) -> u64
    decreases s.len(),
{
    if s.len() == 0 {
        0
    } else if s.last().id > max_id(s.drop_last()) {
        s.last().id
    } else {
        max_id(s.drop_last())
    }
}

proof fn lemma_max_id(s: Seq<ClientInfo>)
    ensures
        forall|k: int| 0 <= k < s.len() ==> (#[trigger] s[k]).id <= max_id(s),
    decreases s.len(),
{
    if s.len() > 0 {
        lemma_max_id(s.drop_last());
        assert forall|k: int| 0 <= k < s.len() implies (#[trigger] s[k]).id <= max_id(s) by {
            if k < s.len() - 1 {
                assert(s[k] == s.drop_last()[k]);
            }
        }
    }
}

/// Shared state between the RTSP sessions and the fan-out.
pub struct ServerState {
    clients: Vec<ClientInfo>,
}

impl View for ServerState {
    type V = Seq<ClientInfo>;

    closed spec fn view(&self) -> Seq<ClientInfo> {
        self.clients@
    }
}

impl ServerState {
    pub open spec fn wf(&self) -> bool {
        unique_ids(self@)
    }

    pub fn new() -> (s: ServerState)
        ensures
            s@ == Seq::<ClientInfo>::empty(),
            s.wf(),
    {
        ServerState { clients: Vec::new() }
    }

    fn position(&self, id: u64) -> (r: Option<usize>)
        ensures
            r matches Some(i) ==> i as int == index_of(self@, id) && i < self@.len(),
            r is None ==> index_of(self@, id) == -1,
    {
        let mut i: usize = self.clients.len();
        proof {
            assert(self.clients@.subrange(0, i as int) =~= self.clients@);
        }
        while i > 0
            invariant
                i <= self.clients@.len(),
                index_of(self.clients@, id) == index_of(self.clients@.subrange(0, i as int), id),
            decreases i,
        {
            let ghost pre = self.clients@.subrange(0, i as int);
            if self.clients[i - 1].id == id {
                return Some(i - 1);
            }
            assert(pre.drop_last() =~= self.clients@.subrange(0, i - 1));
            i = i - 1;
        }
        None
    }

    /// Whether a client with session id `id` is registered.
    pub fn contains(&self, id: u64) -> (b: bool)
        ensures
            b == (index_of(self@, id) >= 0),
    {
        self.position(id).is_some()
    }

    /// The record of `id`, if registered.
    pub fn get(&self, id: u64) -> (r: Option<ClientInfo>)
        ensures
            r matches Some(c) ==> index_of(self@, id) >= 0 && c == self@[index_of(self@, id)],
            r is None ==> index_of(self@, id) < 0,
    {
        match self.position(id) {
            Some(i) => Some(self.clients[i]),
            None => None,
        }
    }

    /// Registers `info`, replacing an earlier record of the same session.
    pub fn add_client(&mut self, info: ClientInfo)
        requires
            old(self).wf(),
        ensures
            final(self).wf(),
            final(self)@ == with_client(old(self)@, info),
    {
        proof {
            lemma_index_of(self@, info.id);
        }
        match self.position(info.id) {
            Some(i) => {
                self.clients.set(i, info);
            },
            None => {
                self.clients.push(info);
            },
        }
    }

    /// Sets whether the client of `session_id` receives media.
    pub fn set_playing(&mut self, session_id: u64, playing: bool)
        requires
            old(self).wf(),
        ensures
            final(self).wf(),
            final(self)@ == with_playing(old(self)@, session_id, playing),
    {
        proof {
            lemma_index_of(self@, session_id);
        }
        match self.position(session_id) {
            Some(i) => {
                let c = self.clients[i];
                self.clients.set(i, ClientInfo { is_playing: playing, ..c });
            },
            None => {},
        }
    }

    /// Forgets the client of `session_id`.
    pub fn remove_client(&mut self, session_id: u64)
        requires
            old(self).wf(),
        ensures
            final(self).wf(),
            final(self)@ == without(old(self)@, session_id),
            index_of(final(self)@, session_id) < 0,
    {
        proof {
            lemma_index_of(self@, session_id);
        }
        match self.position(session_id) {
            Some(i) => {
                self.clients.remove(i);
                proof {
                    let s = old(self)@;
                    let r = self@;
                    assert forall|k: int| 0 <= k < r.len() implies (#[trigger] r[k]).id != session_id by {
                        if k < i {
                            assert(r[k] == s[k]);
                        } else {
                            assert(r[k] == s[k + 1]);
                        }
                    }
                    lemma_index_of(r, session_id);
                }
            },
            None => {},
        }
    }

    /// A snapshot of the playing clients.
    pub fn get_playing_clients(&self) -> (r: Vec<ClientInfo>)
        ensures
            r@ == playing(self@),
    {
        let mut r: Vec<ClientInfo> = Vec::new();
        let mut i: usize = 0;
        while i < self.clients.len()
            invariant
                i <= self.clients@.len(),
                r@ == playing(self.clients@.subrange(0, i as int)),
            decreases self.clients@.len() - i,
        {
            let c = self.clients[i];
            if c.is_playing {
                r.push(c);
            }
            assert(self.clients@.subrange(0, i + 1).drop_last() =~= self.clients@.subrange(0, i as int));
            i = i + 1;
        }
        assert(self.clients@.subrange(0, i as int) =~= self.clients@);
        r
    }

    /// The (RTP, RTCP) addresses of the playing UDP clients.
    pub fn get_udp_clients(&self) -> (r: Vec<(SockAddr, SockAddr)>)
        ensures
            r@ == udp_targets(self@),
    {
        let mut r: Vec<(SockAddr, SockAddr)> = Vec::new();
        let mut i: usize = 0;
        while i < self.clients.len()
            invariant
                i <= self.clients@.len(),
                r@ == udp_targets(self.clients@.subrange(0, i as int)),
            decreases self.clients@.len() - i,
        {
            let c = self.clients[i];
            if c.is_playing {
                match c.transport {
                    TransportMode::Udp { rtp_addr, rtcp_addr } => {
                        r.push((rtp_addr, rtcp_addr));
                    },
                    TransportMode::TcpInterleaved { .. } => {},
                }
            }
            assert(self.clients@.subrange(0, i + 1).drop_last() =~= self.clients@.subrange(0, i as int));
            i = i + 1;
        }
        assert(self.clients@.subrange(0, i as int) =~= self.clients@);
        r
    }

    /// `candidate` when no client holds it, else one past the largest id
    /// in use, if that fits.
    pub open spec fn fresh_spec(&self, candidate: u64) -> Option<u64> {
        if index_of(self@, candidate) < 0 {
            Some(candidate)
        } else if max_id(self@) < u64::MAX {
            Some((max_id(self@) + 1) as u64)
        } else {
            None
        }
    }

    /// A session id that no registered client holds.
    pub fn fresh_id(&self, candidate: u64) -> (r: Option<u64>)
        ensures
            r == self.fresh_spec(candidate),
            r matches Some(id) ==> index_of(self@, id) < 0,
    {
        proof {
            lemma_index_of(self@, candidate);
        }
        if !self.contains(candidate) {
            return Some(candidate);
        }
        let mut top: u64 = 0;
        let mut i: usize = 0;
        while i < self.clients.len()
            invariant
                i <= self.clients@.len(),
                top == max_id(self.clients@.subrange(0, i as int)),
            decreases self.clients@.len() - i,
        {
            assert(self.clients@.subrange(0, i + 1).drop_last() =~= self.clients@.subrange(0, i as int));
            if self.clients[i].id > top {
                top = self.clients[i].id;
            }
            i = i + 1;
        }
        assert(self.clients@.subrange(0, i as int) =~= self.clients@);
        if top < u64::MAX {
            proof {
                lemma_index_of(self@, (top + 1) as u64);
                lemma_max_id(self@);
            }
            Some(top + 1)
        } else {
            None
        }
    }
}

} // verus!
