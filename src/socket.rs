//! One client connection of the server: its session state machine, its heartbeat,
//! the actions queued toward its sink, and the re-encoding of inbound messages for
//! the host.
use vstd::prelude::*;
use vstd::utf8::*;
use crate::server_transport::{Packet, PacketMessage, PacketView, Transport, frame_read};
use crate::wire::{
    bin_bytes, bytes_of, from, headers_fit, map_len_bytes, push_bin, push_str, sint_bytes,
    str_bytes, strs_bytes, write_headers, write_sint,
};

verus! {

/// Seconds between two pings of a server session.
pub const PING_INTERVAL: u8 = 25;

/// Seconds a server session may stay silent beyond the ping interval.
pub const PING_TIMEOUT: u8 = 20;

pub struct Socket {
    /// The id this server gave the connection; authoritative over any the client sent.
    pub id: String,
    pub client_id: String,
    pub session_id: String,
    /// Client-supplied timestamp, not trusted.
    pub client_ts: u64,
    pub client_version: String,
}

pub struct ActionSendOpen {
    pub ping_interval: i64,
    pub ping_timeout: i64,
}

pub struct ActionSendPing {}

pub struct ActionSendMessage {
    /// The fields of a MESSAGE after its tag, as the host wrote them.
    pub payload: Vec<u8>,
}

/// Work queued toward the sink of a socket; the only way to produce an outbound frame.
pub enum Action {
    SendOpen(ActionSendOpen),
    SendPing(ActionSendPing),
    SendMessage(ActionSendMessage),
    Close,
}

impl Action {
    /// The frame the sink writes for this action; `None` for `Close`, which ends the sink.
    pub fn frame(&self) -> (r: Option<Vec<u8>>)
        ensures
            match self {
                Action::SendOpen(o) => r matches Some(f) && f@ == seq![1u8] + sint_bytes(
                    o.ping_interval as int,
                ) + sint_bytes(o.ping_timeout as int),
                Action::SendPing(_) => r matches Some(f) && f@ == seq![6u8],
                Action::SendMessage(m) => r matches Some(f) && f@ == seq![8u8] + m.payload@,
                Action::Close => r is None,
            },
    {
        match self {
            Action::SendOpen(o) => Some(Transport::encode_open_packet(o.ping_interval, o.ping_timeout)),
            Action::SendPing(_) => Some(Transport::encode_ping_packet()),
            Action::SendMessage(m) => Some(Transport::encode_message_packet(m.payload.as_slice())),
            Action::Close => None,
        }
    }
}

/// The bytes handed to the host for a MESSAGE: package id, headers, payload, and the
/// id of the socket it came from.
pub open spec fn host_message_bytes(
    pkg_id: i32,
    headers: Seq<Seq<u8>>,
    payload: Seq<u8>,
    socket_id: Seq<u8>,
) -> Seq<u8> {
    sint_bytes(pkg_id as int) + map_len_bytes(headers.len() / 2) + strs_bytes(headers) + bin_bytes(
        payload,
    ) + str_bytes(socket_id)
}

/// Writes the bytes handed to the host for a MESSAGE.
pub fn write_host_message(
    pkg_id: i32,
    headers: &Vec<Vec<u8>>,
    payload: &[u8],
    socket_id: &[u8],
) -> (r: Vec<u8>)
    requires
        headers_fit(bytes_of(headers@)),
        payload@.len() <= u32::MAX,
        socket_id@.len() <= u32::MAX,
    ensures
        r@ == host_message_bytes(pkg_id, bytes_of(headers@), payload@, socket_id@),
{
    let mut data: Vec<u8> = Vec::new();
    write_sint(&mut data, pkg_id as i64);
    write_headers(&mut data, headers);
    push_bin(&mut data, payload);
    push_str(&mut data, socket_id);
    assert(data@ =~= host_message_bytes(pkg_id, bytes_of(headers@), payload@, socket_id@));
    data
}

/// The bytes handed to the host for each MESSAGE among `ps`, in order.
pub open spec fn host_messages(ps: Seq<PacketView>, socket_id: Seq<u8>) -> Seq<Seq<u8>>
    decreases ps.len(),
{
    if ps.len() == 0 {
        seq![]
    } else {
        let before = host_messages(ps.drop_last(), socket_id);
        match ps.last() {
            PacketView::Message { pkg_id, headers, payload, .. } => before.push(
                host_message_bytes(pkg_id, headers, payload, socket_id),
            ),
            _ => before,
        }
    }
}

/// Whether a CLOSE is among `ps`.
pub open spec fn has_close(ps: Seq<PacketView>) -> bool {
    exists|i: int| 0 <= i < ps.len() && ps[i] is Close
}

impl Socket {
    /// The bytes handed to the host for `msg`, received on the socket `socket_id`.
    pub fn encode_message(socket_id: &str, msg: PacketMessage) -> (r: Vec<u8>)
        requires
            headers_fit(bytes_of(msg.headers@)),
            msg.payload@.len() <= u32::MAX,
            encode_utf8(socket_id@).len() <= u32::MAX,
        ensures
            r@ == host_message_bytes(
                msg.pkg_id,
                bytes_of(msg.headers@),
                msg.payload@,
                encode_utf8(socket_id@),
            ),
    {
        write_host_message(msg.pkg_id, &msg.headers, msg.payload.as_slice(), socket_id.as_bytes())
    }
}

/// Where a session stands.
#[derive(PartialEq, Eq, Structural, Clone, Copy)]
pub enum Phase {
    Opening,
    Live,
    Closing,
    Closed,
}

/// The state of one session: its phase and its heartbeat.
#[derive(Clone, Copy)]
pub struct Session {
    pub phase: Phase,
    /// When the last frame arrived, in seconds.
    pub last_heartbeat: u64,
    pub ping_interval: u8,
    pub ping_timeout: u8,
}

/// What the stream task does with one inbound frame.
pub struct FrameOutcome {
    /// Bytes for the host's read pipe, in wire order.
    pub to_host: Vec<Vec<u8>>,
    /// Whether the session is to shut down.
    pub close: bool,
}

/// What the heartbeat task does at a tick.
#[derive(PartialEq, Eq, Structural, Clone, Copy)]
pub enum Tick {
    /// Queue a ping and sleep again.
    Ping,
    /// Signal shutdown.
    Close,
}

/// Whether a session that last heard from its peer at `last` is overdue at `now`.
pub open spec fn overdue(s: Session, now: u64) -> bool {
    now > s.last_heartbeat + s.ping_interval + s.ping_timeout
}

/// Whether a session is still running.
pub open spec fn running(s: Session) -> bool {
    s.phase == Phase::Opening || s.phase == Phase::Live
}

impl Session {
    /// A session accepted at `now`: OPENING, with the default intervals, and the OPEN
    /// to send first.
    pub fn accept(now: u64) -> (r: (Session, Action))
        ensures
            r.0 == (Session {
                phase: Phase::Opening,
                last_heartbeat: now,
                ping_interval: PING_INTERVAL,
                ping_timeout: PING_TIMEOUT,
            }),
            r.1 matches Action::SendOpen(o) && o.ping_interval == PING_INTERVAL && o.ping_timeout
                == PING_TIMEOUT,
    {
        let session = Session {
            phase: Phase::Opening,
            last_heartbeat: now,
            ping_interval: PING_INTERVAL,
            ping_timeout: PING_TIMEOUT,
        };
        let open = ActionSendOpen {
            ping_interval: PING_INTERVAL as i64,
            ping_timeout: PING_TIMEOUT as i64,
        };
        (session, Action::SendOpen(open))
    }

    /// One frame arrived at `now` on the socket `socket_id`: the host gets each MESSAGE
    /// in it re-encoded with that id, a CLOSE shuts the session down, every frame counts
    /// as a heartbeat, and one that yields any packet makes an opening session live.
    pub fn on_frame(&mut self, socket_id: &str, data: &[u8], now: u64) -> (r: FrameOutcome)
        requires
            encode_utf8(socket_id@).len() <= u32::MAX,
        ensures
            running(*old(self)) ==> {
                let ps = frame_read(data@);
                &&& bytes_of(r.to_host@) == host_messages(ps, encode_utf8(socket_id@))
                &&& r.close == has_close(ps)
                &&& final(self).last_heartbeat == if now > old(self).last_heartbeat {
                    now
                } else {
                    old(self).last_heartbeat
                }
                &&& final(self).phase == if has_close(ps) {
                    Phase::Closing
                } else if ps.len() > 0 {
                    Phase::Live
                } else {
                    old(self).phase
                }
                &&& final(self).ping_interval == old(self).ping_interval
                &&& final(self).ping_timeout == old(self).ping_timeout
            },
            !running(*old(self)) ==> r.to_host@.len() == 0 && r.close && *final(self) == *old(
                self,
            ),
    {
        if !(self.phase == Phase::Opening || self.phase == Phase::Live) {
            return FrameOutcome { to_host: Vec::new(), close: true };
        }
        let packets = Transport::parse_frame(data);
        let ghost ps = frame_read(data@);
        let ghost sid = encode_utf8(socket_id@);
        proof {
            crate::server_transport::lemma_frame_fits(data@);
        }
        let id = socket_id.as_bytes();
        let mut to_host: Vec<Vec<u8>> = Vec::new();
        let mut close = false;
        let mut i: usize = 0;
        while i < packets.len()
            invariant
                packets@.map_values(|p: Packet| p@) == ps,
                sid == encode_utf8(socket_id@),
                id@ == sid,
                sid.len() <= u32::MAX,
                i <= packets@.len(),
                forall|j: int| 0 <= j < ps.len() ==> crate::server_transport::message_fits(
                    #[trigger] ps[j],
                ),
                bytes_of(to_host@) == host_messages(ps.subrange(0, i as int), sid),
                close == has_close(ps.subrange(0, i as int)),
            decreases packets@.len() - i,
        {
            let ghost before = ps.subrange(0, i as int);
            let ghost next = ps.subrange(0, i + 1);
            assert(next.drop_last() =~= before);
            assert(next.last() == packets@[i as int]@);
            assert(crate::server_transport::message_fits(ps[i as int]));
            match &packets[i] {
                Packet::MESSAGE(m) => {
                    let bytes = write_host_message(m.pkg_id, &m.headers, m.payload.as_slice(), id);
                    to_host.push(bytes);
                    assert(bytes_of(to_host@) =~= host_messages(before, sid).push(bytes@));
                },
                Packet::CLOSE(_) => {
                    close = true;
                },
                _ => {},
            }
            proof {
                if has_close(next) {
                    let j = choose|j: int| 0 <= j < next.len() && next[j] is Close;
                    if j < i {
                        assert(before[j] is Close);
                    }
                }
                if has_close(before) {
                    let j = choose|j: int| 0 <= j < before.len() && before[j] is Close;
                    assert(next[j] is Close);
                }
                if next.last() is Close {
                    assert(next[i as int] is Close);
                }
            }
            i = i + 1;
        }
        assert(ps.subrange(0, i as int) =~= ps);
        if now > self.last_heartbeat {
            self.last_heartbeat = now;
        }
        if packets.len() > 0 {
            self.phase = Phase::Live;
        }
        if close {
            self.phase = Phase::Closing;
        }
        FrameOutcome { to_host, close }
    }

    /// The heartbeat at `now`: a ping while the peer is on time, else shutdown.
    pub fn on_tick(&mut self, now: u64) -> (r: Tick)
        ensures
            running(*old(self)) && !overdue(*old(self), now) ==> r == Tick::Ping && *final(self)
                == *old(self),
            running(*old(self)) && overdue(*old(self), now) ==> r == Tick::Close && *final(self)
                == (Session { phase: Phase::Closing, ..*old(self) }),
            !running(*old(self)) ==> r == Tick::Close && *final(self) == *old(self),
    {
        if !(self.phase == Phase::Opening || self.phase == Phase::Live) {
            return Tick::Close;
        }
        let limit = self.ping_interval as u64 + self.ping_timeout as u64;
        if now > self.last_heartbeat && now - self.last_heartbeat > limit {
            self.phase = Phase::Closing;
            Tick::Close
        } else {
            Tick::Ping
        }
    }

    /// A write to the sink failed: the session shuts down.
    pub fn on_sink_error(&mut self)
        ensures
            running(*old(self)) ==> *final(self) == (Session {
                phase: Phase::Closing,
                ..*old(self)
            }),
            !running(*old(self)) ==> *final(self) == *old(self),
    {
        if self.phase == Phase::Opening || self.phase == Phase::Live {
            self.phase = Phase::Closing;
        }
    }

    /// The supervisor has stopped the tasks and dropped the socket.
    pub fn finish(&mut self)
        ensures
            *final(self) == (Session { phase: Phase::Closed, ..*old(self) }),
    {
        self.phase = Phase::Closed;
    }
}

/// Any frame that arrives at `heard` keeps the session alive: no tick up to
/// `ping_interval + ping_timeout` seconds later finds it overdue, and every tick after
/// that, with no frame in between, does.
pub proof fn lemma_heartbeat(s: Session, heard: u64, now: u64)
    requires
        running(s),
        heard >= s.last_heartbeat,
    ensures
        ({
            let t = Session { last_heartbeat: heard, ..s };
            &&& running(t)
            &&& !overdue(t, now) <==> now <= heard + s.ping_interval + s.ping_timeout
        }),
{
}

} // verus!
