//! Packets of the server transport: the tag table OPEN=1 .. ACK=9, their parser,
//! their encoder and the splitting of a frame into packets.
use vstd::prelude::*;
use vstd::utf8::*;
use crate::wire::{
    lemma_small_sint,
    bytes_of, from, headers_fit, int_at, lemma_from_append, lemma_from_from, lemma_front_extend,
    lemma_front_fits, lemma_message_front_round_trip, lemma_prim_extend, lemma_reads_bounded,
    lemma_sint_round_trip, lemma_text_round_trip, message_front_bytes, message_front_read,
    pfix_at, pfix_read, push_bin, push_str, read_message_front, read_text, sint_bytes,
    str_bytes, text_read, two_int_read, two_pfix_read, write_headers, write_pfix, write_sint,
};

verus! {

pub struct PacketOpen {
    /// Seconds between pings.
    pub ping_interval: u8,
    /// Seconds a ping may stay unanswered.
    pub ping_timeout: u8,
}

pub struct PacketClose {
    pub reason: String,
}

pub struct PacketPing {}

pub struct PacketPong {}

pub struct PacketRetry {
    pub delay: u8,
}

pub struct PacketReset {
    pub delay: u8,
}

pub struct PacketRedirect {
    pub delay: u8,
    pub target: String,
}

pub struct PacketMessage {
    pub id: i32,
    pub pkg_id: i32,
    /// Header keys and values, flat: key, value, key, value, ...
    pub headers: Vec<Vec<u8>>,
    pub payload: Vec<u8>,
}

pub struct PacketAck {
    pub id: i32,
    pub pkg_id: i32,
}

#[allow(non_camel_case_types)]
pub enum Packet {
    OPEN(PacketOpen),
    RETRY(PacketRetry),
    RESET(PacketReset),
    REDIRECT(PacketRedirect),
    CLOSE(PacketClose),
    PING(PacketPing),
    PONG(PacketPong),
    MESSAGE(PacketMessage),
    ACK(PacketAck),
}

/// What a packet of the server transport holds.
pub ghost enum PacketView {
    Open { ping_interval: u8, ping_timeout: u8 },
    Retry { delay: u8 },
    Reset { delay: u8 },
    Redirect { delay: u8, target: Seq<char> },
    Close { reason: Seq<char> },
    Ping,
    Pong,
    Message { id: i32, pkg_id: i32, headers: Seq<Seq<u8>>, payload: Seq<u8> },
    Ack { id: i32, pkg_id: i32 },
}

impl View for Packet {
    type V = PacketView;

    open spec fn view(&self) -> PacketView {
        match self {
            Packet::OPEN(o) => PacketView::Open {
                ping_interval: o.ping_interval,
                ping_timeout: o.ping_timeout,
            },
            Packet::RETRY(r) => PacketView::Retry { delay: r.delay },
            Packet::RESET(r) => PacketView::Reset { delay: r.delay },
            Packet::REDIRECT(r) => PacketView::Redirect { delay: r.delay, target: r.target@ },
            Packet::CLOSE(c) => PacketView::Close { reason: c.reason@ },
            Packet::PING(_) => PacketView::Ping,
            Packet::PONG(_) => PacketView::Pong,
            Packet::MESSAGE(m) => PacketView::Message {
                id: m.id,
                pkg_id: m.pkg_id,
                headers: bytes_of(m.headers@),
                payload: m.payload@,
            },
            Packet::ACK(a) => PacketView::Ack { id: a.id, pkg_id: a.pkg_id },
        }
    }
}

/// The fields of a MESSAGE after its tag.
pub open spec fn message_read(s: Seq<u8>) -> Option<(PacketView, nat)> {
    match message_front_read(s) {
        Some((id, pkg_id, headers, payload, k)) => Some(
            (PacketView::Message { id, pkg_id, headers, payload }, k),
        ),
        None => None,
    }
}

/// The fields that follow the tag `tag`, read from `s`.
pub open spec fn body_read(tag: u8, s: Seq<u8>) -> Option<(PacketView, nat)> {
    if tag == 1 {
        match two_pfix_read(s) {
            Some((a, b, k)) => Some((PacketView::Open { ping_interval: a, ping_timeout: b }, k)),
            None => None,
        }
    } else if tag == 2 || tag == 3 || tag == 4 {
        match pfix_read(s) {
            Some((delay, k1)) => if tag == 2 {
                Some((PacketView::Retry { delay }, k1))
            } else if tag == 3 {
                Some((PacketView::Reset { delay }, k1))
            } else {
                match text_read(from(s, k1 as int)) {
                    Some((target, k2)) => Some((PacketView::Redirect { delay, target }, k1 + k2)),
                    None => None,
                }
            },
            None => None,
        }
    } else if tag == 5 {
        match text_read(s) {
            Some((reason, k)) => Some((PacketView::Close { reason }, k)),
            None => None,
        }
    } else if tag == 6 {
        Some((PacketView::Ping, 0))
    } else if tag == 7 {
        Some((PacketView::Pong, 0))
    } else if tag == 8 {
        message_read(s)
    } else if tag == 9 {
        match two_int_read(s) {
            Some((id, pkg_id, k)) => Some((PacketView::Ack { id, pkg_id }, k)),
            None => None,
        }
    } else {
        None
    }
}

/// The packet at the start of `s` and the bytes it takes; `None` where the tag is
/// unknown or a field does not decode.
pub open spec fn packet_read(s: Seq<u8>) -> Option<(PacketView, nat)> {
    match pfix_read(s) {
        Some((tag, _)) => match body_read(tag, from(s, 1)) {
            Some((p, k)) => Some((p, 1 + k)),
            None => None,
        },
        None => None,
    }
}

/// The packets of a frame: read one after another up to its end, or up to the first
/// that does not decode.
pub open spec fn frame_read(s: Seq<u8>) -> Seq<PacketView>
    decreases s.len(),
{
    if s.len() == 0 {
        seq![]
    } else {
        match packet_read(s) {
            Some((p, k)) => if 0 < k <= s.len() {
                seq![p] + frame_read(from(s, k as int))
            } else {
                seq![]
            },
            None => seq![],
        }
    }
}

/// The bytes of a packet as this library writes it; one-byte fields are written as
/// integers in their shortest form.
pub open spec fn packet_bytes(p: PacketView) -> Seq<u8> {
    match p {
        PacketView::Open { ping_interval, ping_timeout } => seq![1u8] + sint_bytes(
            ping_interval as int,
        ) + sint_bytes(ping_timeout as int),
        PacketView::Retry { delay } => seq![2u8] + sint_bytes(delay as int),
        PacketView::Reset { delay } => seq![3u8] + sint_bytes(delay as int),
        PacketView::Redirect { delay, target } => seq![4u8] + sint_bytes(delay as int)
            + str_bytes(encode_utf8(target)),
        PacketView::Close { reason } => seq![5u8] + str_bytes(encode_utf8(reason)),
        PacketView::Ping => seq![6u8],
        PacketView::Pong => seq![7u8],
        PacketView::Message { id, pkg_id, headers, payload } => seq![8u8] + message_front_bytes(
            id,
            pkg_id,
            headers,
            payload,
        ),
        PacketView::Ack { id, pkg_id } => seq![9u8] + sint_bytes(id as int) + sint_bytes(
            pkg_id as int,
        ),
    }
}

/// A packet that can be written: every length within the format's 32 bits.
pub open spec fn encodable(p: PacketView) -> bool {
    match p {
        PacketView::Redirect { target, .. } => encode_utf8(target).len() <= u32::MAX,
        PacketView::Close { reason } => encode_utf8(reason).len() <= u32::MAX,
        PacketView::Message { headers, payload, .. } => headers_fit(headers) && payload.len()
            <= u32::MAX,
        _ => true,
    }
}

/// A packet that can be written and whose one-byte fields are below 0x80, so that
/// they are written as the positive fixints that the parser asks for.
pub open spec fn round_trips(p: PacketView) -> bool {
    &&& encodable(p)
    &&& match p {
        PacketView::Open { ping_interval, ping_timeout } => ping_interval < 0x80 && ping_timeout
            < 0x80,
        PacketView::Retry { delay } => delay < 0x80,
        PacketView::Reset { delay } => delay < 0x80,
        PacketView::Redirect { delay, .. } => delay < 0x80,
        _ => true,
    }
}

/// The bytes of several packets written one after another.
pub open spec fn packets_bytes(ps: Seq<PacketView>) -> Seq<u8>
    decreases ps.len(),
{
    if ps.len() == 0 {
        seq![]
    } else {
        packet_bytes(ps[0]) + packets_bytes(ps.drop_first())
    }
}

pub struct Transport {}

impl Transport {
    /// Parses the packet that starts at `pos`: the packet and the position after it,
    /// or `None` where the tag is unknown or a field does not decode.
    pub fn parse_packet(data: &[u8], pos: usize) -> (r: Option<(Packet, usize)>)
        requires
            pos <= data@.len(),
        ensures
            match packet_read(from(data@, pos as int)) {
                Some((p, k)) => r matches Some((x, q)) && x@ == p && q == pos + k && q
                    <= data@.len(),
                None => r is None,
            },
    {
        broadcast use lemma_from_from;

        let (tag, p) = match pfix_at(data, pos) {
            Some(t) => t,
            None => return None,
        };
        proof {
            lemma_from_from(data@, pos as int, 1);
        }
        if tag == 1 {
            let (a, pos1) = match pfix_at(data, p) {
                Some(t) => t,
                None => return None,
            };
            let (b, pos2) = match pfix_at(data, pos1) {
                Some(t) => t,
                None => return None,
            };
            Some((Packet::OPEN(PacketOpen { ping_interval: a, ping_timeout: b }), pos2))
        } else if tag == 2 || tag == 3 || tag == 4 {
            let (delay, pos1) = match pfix_at(data, p) {
                Some(t) => t,
                None => return None,
            };
            if tag == 2 {
                Some((Packet::RETRY(PacketRetry { delay }), pos1))
            } else if tag == 3 {
                Some((Packet::RESET(PacketReset { delay }), pos1))
            } else {
                match read_text(data, pos1) {
                    Some((target, pos2)) => Some(
                        (Packet::REDIRECT(PacketRedirect { delay, target }), pos2),
                    ),
                    None => None,
                }
            }
        } else if tag == 5 {
            match read_text(data, p) {
                Some((reason, pos1)) => Some((Packet::CLOSE(PacketClose { reason }), pos1)),
                None => None,
            }
        } else if tag == 6 {
            Some((Packet::PING(PacketPing {}), p))
        } else if tag == 7 {
            Some((Packet::PONG(PacketPong {}), p))
        } else if tag == 8 {
            match Self::parse_message(data, p) {
                Some((m, pos1)) => Some((Packet::MESSAGE(m), pos1)),
                None => None,
            }
        } else if tag == 9 {
            let (id, pos1) = match int_at(data, p) {
                Some(t) => t,
                None => return None,
            };
            let (pkg_id, pos2) = match int_at(data, pos1) {
                Some(t) => t,
                None => return None,
            };
            Some((Packet::ACK(PacketAck { id, pkg_id }), pos2))
        } else {
            None
        }
    }

    /// Parses the fields of a MESSAGE that start at `pos`.
    fn parse_message(data: &[u8], pos: usize) -> (r: Option<(PacketMessage, usize)>)
        requires
            pos <= data@.len(),
        ensures
            match message_read(from(data@, pos as int)) {
                Some((p, k)) => r matches Some((x, q)) && Packet::MESSAGE(x)@ == p && q == pos
                    + k && q <= data@.len(),
                None => r is None,
            },
    {
        match read_message_front(data, pos) {
            Some((id, pkg_id, headers, payload, p)) => Some(
                (PacketMessage { id, pkg_id, headers, payload }, p),
            ),
            None => None,
        }
    }

    /// Splits a frame into its packets, in order, up to its end or up to the first
    /// packet that does not decode (an unknown tag included).
    pub fn parse_frame(data: &[u8]) -> (r: Vec<Packet>)
        ensures
            r@.map_values(|p: Packet| p@) == frame_read(data@),
    {
        let mut packets: Vec<Packet> = Vec::new();
        let mut pos: usize = 0;
        proof {
            assert(from(data@, 0) =~= data@);
        }
        while pos < data.len()
            invariant
                pos <= data@.len(),
                frame_read(data@) == packets@.map_values(|p: Packet| p@) + frame_read(
                    from(data@, pos as int),
                ),
            decreases data@.len() - pos,
        {
            let ghost before = packets@.map_values(|p: Packet| p@);
            match Self::parse_packet(data, pos) {
                Some((packet, next)) => {
                    proof {
                        lemma_from_from(data@, pos as int, next - pos);
                    }
                    packets.push(packet);
                    assert(packets@.map_values(|p: Packet| p@) =~= before.push(
                        packets@[packets@.len() - 1]@,
                    ));
                    pos = next;
                },
                None => {
                    assert(frame_read(data@) =~= before);
                    return packets;
                },
            }
        }
        assert(from(data@, pos as int) =~= Seq::<u8>::empty());
        assert(frame_read(data@) =~= packets@.map_values(|p: Packet| p@));
        packets
    }

    /// The bytes of `packet`.
    pub fn encode_packet(packet: &Packet) -> (r: Vec<u8>)
        requires
            encodable(packet@),
        ensures
            r@ == packet_bytes(packet@),
    {
        let mut out: Vec<u8> = Vec::new();
        match packet {
            Packet::OPEN(o) => {
                write_pfix(&mut out, 1);
                write_sint(&mut out, o.ping_interval as i64);
                write_sint(&mut out, o.ping_timeout as i64);
            },
            Packet::RETRY(r) => {
                write_pfix(&mut out, 2);
                write_sint(&mut out, r.delay as i64);
            },
            Packet::RESET(r) => {
                write_pfix(&mut out, 3);
                write_sint(&mut out, r.delay as i64);
            },
            Packet::REDIRECT(r) => {
                write_pfix(&mut out, 4);
                write_sint(&mut out, r.delay as i64);
                push_str(&mut out, r.target.as_str().as_bytes());
            },
            Packet::CLOSE(c) => {
                write_pfix(&mut out, 5);
                push_str(&mut out, c.reason.as_str().as_bytes());
            },
            Packet::PING(_) => {
                write_pfix(&mut out, 6);
            },
            Packet::PONG(_) => {
                write_pfix(&mut out, 7);
            },
            Packet::MESSAGE(m) => {
                write_pfix(&mut out, 8);
                write_sint(&mut out, m.id as i64);
                write_sint(&mut out, m.pkg_id as i64);
                write_headers(&mut out, &m.headers);
                push_bin(&mut out, m.payload.as_slice());
            },
            Packet::ACK(a) => {
                write_pfix(&mut out, 9);
                write_sint(&mut out, a.id as i64);
                write_sint(&mut out, a.pkg_id as i64);
            },
        }
        assert(out@ =~= packet_bytes(packet@));
        out
    }

    /// The OPEN packet that starts a session: tag 1, then the ping interval and the
    /// ping timeout as integers.
    pub fn encode_open_packet(ping_interval: i64, ping_timeout: i64) -> (r: Vec<u8>)
        ensures
            r@ == seq![1u8] + sint_bytes(ping_interval as int) + sint_bytes(ping_timeout as int),
    {
        let mut out: Vec<u8> = Vec::with_capacity(3);
        write_sint(&mut out, 1);
        write_sint(&mut out, ping_interval);
        write_sint(&mut out, ping_timeout);
        assert(sint_bytes(1) =~= seq![1u8]);
        assert(out@ =~= seq![1u8] + sint_bytes(ping_interval as int) + sint_bytes(ping_timeout as int));
        out
    }

    /// The CLOSE packet with `reason`.
    pub fn encode_close_packet(reason: &str) -> (r: Vec<u8>)
        requires
            encode_utf8(reason@).len() <= u32::MAX,
        ensures
            r@ == packet_bytes(PacketView::Close { reason: reason@ }),
    {
        let mut out: Vec<u8> = Vec::new();
        write_sint(&mut out, 5);
        push_str(&mut out, reason.as_bytes());
        assert(sint_bytes(5) =~= seq![5u8]);
        assert(out@ =~= packet_bytes(PacketView::Close { reason: reason@ }));
        out
    }

    /// The PING packet.
    pub fn encode_ping_packet() -> (r: Vec<u8>)
        ensures
            r@ == packet_bytes(PacketView::Ping),
    {
        let mut out: Vec<u8> = Vec::with_capacity(1);
        write_sint(&mut out, 6);
        assert(sint_bytes(6) =~= seq![6u8]);
        assert(out@ =~= packet_bytes(PacketView::Ping));
        out
    }

    /// A MESSAGE packet around `data`, the fields that follow its tag, written as the host
    /// handed them over.
    pub fn encode_message_packet(data: &[u8]) -> (r: Vec<u8>)
        ensures
            r@ == seq![8u8] + data@,
    {
        let mut out: Vec<u8> = Vec::new();
        write_pfix(&mut out, 8);
        crate::wire::push_all(&mut out, data);
        assert(out@ =~= seq![8u8] + data@);
        out
    }
}

/// The tag that this table gives to the kind of `p`.
pub open spec fn tag_of(p: PacketView) -> u8 {
    match p {
        PacketView::Open { .. } => 1,
        PacketView::Retry { .. } => 2,
        PacketView::Reset { .. } => 3,
        PacketView::Redirect { .. } => 4,
        PacketView::Close { .. } => 5,
        PacketView::Ping => 6,
        PacketView::Pong => 7,
        PacketView::Message { .. } => 8,
        PacketView::Ack { .. } => 9,
    }
}

/// The fields that follow the tag, in the bytes of `p`.
pub open spec fn body_bytes(p: PacketView) -> Seq<u8> {
    packet_bytes(p).drop_first()
}

proof fn lemma_open_round_trip(p: PacketView, rest: Seq<u8>)
    requires
        round_trips(p),
        p is Open,
    ensures
        body_read(1, body_bytes(p) + rest) == Some((p, body_bytes(p).len())),
{
    if let PacketView::Open { ping_interval: a, ping_timeout: b } = p {
        lemma_small_sint(a, rest);
        lemma_small_sint(b, rest);
        let body = body_bytes(p) + rest;
        assert(body =~= seq![a] + (seq![b] + rest));
        assert(from(body, 1) =~= seq![b] + rest);
        assert(two_pfix_read(body) == Some((a, b, 2nat)));
    }
}

proof fn lemma_delay_round_trip(p: PacketView, rest: Seq<u8>)
    requires
        round_trips(p),
        p is Retry || p is Reset,
    ensures
        body_read(tag_of(p), body_bytes(p) + rest) == Some((p, body_bytes(p).len())),
{
    match p {
        PacketView::Retry { delay } => {
            lemma_small_sint(delay, rest);
            assert(body_bytes(p) + rest =~= seq![delay] + rest);
        },
        PacketView::Reset { delay } => {
            lemma_small_sint(delay, rest);
            assert(body_bytes(p) + rest =~= seq![delay] + rest);
        },
        _ => {},
    }
}

proof fn lemma_redirect_round_trip(p: PacketView, rest: Seq<u8>)
    requires
        round_trips(p),
        p is Redirect,
    ensures
        body_read(4, body_bytes(p) + rest) == Some((p, body_bytes(p).len())),
{
    if let PacketView::Redirect { delay, target } = p {
        let t = str_bytes(encode_utf8(target)) + rest;
        lemma_small_sint(delay, t);
        let body = body_bytes(p) + rest;
        assert(body =~= seq![delay] + t);
        assert(from(body, 1) =~= t);
        lemma_text_round_trip(target, rest);
    }
}

proof fn lemma_close_round_trip(p: PacketView, rest: Seq<u8>)
    requires
        round_trips(p),
        p is Close,
    ensures
        body_read(5, body_bytes(p) + rest) == Some((p, body_bytes(p).len())),
{
    if let PacketView::Close { reason } = p {
        assert(body_bytes(p) + rest =~= str_bytes(encode_utf8(reason)) + rest);
        lemma_text_round_trip(reason, rest);
    }
}

proof fn lemma_ack_round_trip(p: PacketView, rest: Seq<u8>)
    requires
        p is Ack,
    ensures
        body_read(9, body_bytes(p) + rest) == Some((p, body_bytes(p).len())),
{
    if let PacketView::Ack { id, pkg_id } = p {
        let a = sint_bytes(id as int);
        let body = body_bytes(p) + rest;
        lemma_sint_round_trip(id, sint_bytes(pkg_id as int) + rest);
        lemma_sint_round_trip(pkg_id, rest);
        assert(body =~= a + (sint_bytes(pkg_id as int) + rest));
        assert(from(body, a.len() as int) =~= sint_bytes(pkg_id as int) + rest);
    }
}

/// Reading a MESSAGE back from its own bytes.
proof fn lemma_message_round_trip(p: PacketView, rest: Seq<u8>)
    requires
        round_trips(p),
        p is Message,
    ensures
        body_read(8, body_bytes(p) + rest) == Some((p, body_bytes(p).len())),
{
    if let PacketView::Message { id, pkg_id, headers, payload } = p {
        assert(body_bytes(p) =~= message_front_bytes(id, pkg_id, headers, payload));
        lemma_message_front_round_trip(id, pkg_id, headers, payload, rest);
    }
}

/// Every packet that round-trips reads back from its own bytes, whatever follows them.
pub proof fn lemma_packet_round_trip(p: PacketView, rest: Seq<u8>)
    requires
        round_trips(p),
    ensures
        packet_read(packet_bytes(p) + rest) == Some((p, packet_bytes(p).len())),
{
    let s = packet_bytes(p) + rest;
    assert(from(s, 1) =~= body_bytes(p) + rest);
    assert(s[0] == tag_of(p));
    if p is Open {
        lemma_open_round_trip(p, rest);
    } else if p is Retry || p is Reset {
        lemma_delay_round_trip(p, rest);
    } else if p is Redirect {
        lemma_redirect_round_trip(p, rest);
    } else if p is Close {
        lemma_close_round_trip(p, rest);
    } else if p is Message {
        lemma_message_round_trip(p, rest);
    } else if p is Ack {
        lemma_ack_round_trip(p, rest);
    }
    assert(pfix_read(s) == Some((tag_of(p), 1nat)));
}

/// Packets written one after another come back from the frame in the same order.
pub proof fn lemma_frame_round_trip(ps: Seq<PacketView>)
    requires
        forall|i: int| 0 <= i < ps.len() ==> round_trips(#[trigger] ps[i]),
    ensures
        frame_read(packets_bytes(ps)) == ps,
    decreases ps.len(),
{
    if ps.len() > 0 {
        let s = packets_bytes(ps);
        let tail = ps.drop_first();
        assert(round_trips(ps[0]));
        lemma_packet_round_trip(ps[0], packets_bytes(tail));
        assert(from(s, packet_bytes(ps[0]).len() as int) =~= packets_bytes(tail));
        assert forall|i: int| 0 <= i < tail.len() implies round_trips(#[trigger] tail[i]) by {
            assert(tail[i] == ps[i + 1]);
        }
        lemma_frame_round_trip(tail);
        assert(seq![ps[0]] + tail =~= ps);
    }
}

/// A packet followed by a byte that is no tag of this table yields that packet alone.
pub proof fn lemma_unknown_tag_stops(p: PacketView, tag: u8, rest: Seq<u8>)
    requires
        round_trips(p),
        !(1 <= tag <= 9),
    ensures
        frame_read(packet_bytes(p) + seq![tag] + rest) == seq![p],
{
    let s = packet_bytes(p) + seq![tag] + rest;
    lemma_packet_round_trip(p, seq![tag] + rest);
    assert(s =~= packet_bytes(p) + (seq![tag] + rest));
    let t = from(s, packet_bytes(p).len() as int);
    assert(t =~= seq![tag] + rest);
    assert(packet_read(t) is None);
    assert(frame_read(t) == Seq::<PacketView>::empty());
    assert(seq![p] + frame_read(t) =~= seq![p]);
}

/// A MESSAGE whose headers and payload can be written again.
pub open spec fn message_fits(p: PacketView) -> bool {
    p matches PacketView::Message { headers, payload, .. } ==> headers_fit(headers)
        && payload.len() <= u32::MAX
}

/// Every MESSAGE split out of a frame can be written again.
pub proof fn lemma_frame_fits(s: Seq<u8>)
    ensures
        forall|i: int| 0 <= i < frame_read(s).len() ==> message_fits(#[trigger] frame_read(s)[i]),
    decreases s.len(),
{
    if s.len() > 0 {
        if let Some((p, k)) = packet_read(s) {
            if 0 < k <= s.len() {
                lemma_front_fits(from(s, 1));
                lemma_frame_fits(from(s, k as int));
                let rest = frame_read(from(s, k as int));
                assert forall|i: int| 0 <= i < frame_read(s).len() implies message_fits(
                    #[trigger] frame_read(s)[i],
                ) by {
                    if i > 0 {
                        assert(frame_read(s)[i] == rest[i - 1]);
                    }
                }
            }
        }
    }
}

/// A packet that reads from `t` reads the same from `t` followed by anything, and
/// takes no more than `t`.
pub proof fn lemma_packet_extend(t: Seq<u8>, u: Seq<u8>)
    ensures
        packet_read(t) matches Some((p, k)) ==> k <= t.len() && packet_read(t + u) == packet_read(
            t,
        ),
{
    lemma_prim_extend(t, u);
    lemma_reads_bounded(t);
    if let Some((tag, _)) = pfix_read(t) {
        let b = from(t, 1);
        lemma_from_append(t, u, 1);
        lemma_prim_extend(b, u);
        lemma_reads_bounded(b);
        lemma_front_extend(b, u);
        if let Some((d, k1)) = pfix_read(b) {
            lemma_from_append(b, u, k1 as int);
            lemma_prim_extend(from(b, k1 as int), u);
            lemma_reads_bounded(from(b, k1 as int));
        }
    }
}

/// Cutting the bytes of packets anywhere yields the packets that lie wholly before the
/// cut, in order, and no more.
pub proof fn lemma_truncated_frame(ps: Seq<PacketView>, j: int)
    requires
        forall|i: int| 0 <= i < ps.len() ==> round_trips(#[trigger] ps[i]),
        0 <= j <= packets_bytes(ps).len(),
    ensures
        ({
            let got = frame_read(packets_bytes(ps).subrange(0, j));
            got.len() <= ps.len() && got == ps.subrange(0, got.len() as int)
        }),
    decreases ps.len(),
{
    let s = packets_bytes(ps);
    let t = s.subrange(0, j);
    if ps.len() == 0 || j == 0 {
        assert(t.len() == 0);
        assert(frame_read(t) =~= Seq::<PacketView>::empty());
        assert(ps.subrange(0, 0) =~= Seq::<PacketView>::empty());
    } else {
        let tail = ps.drop_first();
        let first = packet_bytes(ps[0]);
        let n0 = first.len() as int;
        assert(round_trips(ps[0]));
        assert(n0 >= 1);
        assert forall|i: int| 0 <= i < tail.len() implies round_trips(#[trigger] tail[i]) by {
            assert(tail[i] == ps[i + 1]);
        }
        if j >= n0 {
            let rest = packets_bytes(tail).subrange(0, j - n0);
            assert(t =~= first + rest);
            lemma_packet_round_trip(ps[0], rest);
            assert(from(t, n0) =~= rest);
            lemma_truncated_frame(tail, j - n0);
            let got = frame_read(t);
            let more = frame_read(rest);
            assert(got == seq![ps[0]] + more);
            assert(got =~= ps.subrange(0, got.len() as int));
        } else {
            lemma_packet_round_trip(ps[0], packets_bytes(tail));
            let after = s.subrange(j, s.len() as int);
            assert(t + after =~= s);
            lemma_packet_extend(t, after);
            assert(packet_read(t) is None);
            assert(frame_read(t) =~= Seq::<PacketView>::empty());
            assert(ps.subrange(0, 0) =~= Seq::<PacketView>::empty());
        }
    }
}

} // verus!
