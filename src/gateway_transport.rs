//! Packets of the uplink to the devtools relay: the tag table OPEN=6 .. ACK=13, their
//! parser, their encoder and the splitting of a frame into packets. A MESSAGE here
//! carries the id of the virtual socket it belongs to.
use vstd::prelude::*;
use vstd::utf8::*;
use crate::wire::{
    lemma_small_sint,
    bytes_of, from, headers_fit, int_at, lemma_from_append, lemma_from_from, lemma_front_extend,
    lemma_front_fits, lemma_message_front_round_trip, lemma_prim_extend, lemma_reads_bounded,
    lemma_sint_round_trip, lemma_text_round_trip, message_front_bytes, message_front_read,
    pfix_at, pfix_read, push_bin, push_str, read_message_front, read_str, read_text, sint_bytes,
    str_bytes, str_read, strs_bytes, text_read, two_int_read, two_pfix_read, write_headers,
    write_map_len, write_pfix, write_sint,
};

verus! {

pub struct PacketOpen {
    /// Seconds between pings.
    pub ping_interval: u8,
    /// Seconds a ping may stay unanswered.
    pub ping_timeout: u8,
    /// Smallest payload, in KiB, that the relay compresses.
    pub compress_size: u8,
    /// Compression method: 0 none, 1 deflate.
    pub compress_method: u8,
}

pub struct PacketClose {
    pub reason: String,
}

pub struct PacketPing {}

pub struct PacketPong {}

pub struct PacketRetry {
    pub delay: u8,
}

pub struct PacketRedirect {
    pub delay: u8,
    pub target: String,
}

pub struct PacketMessage {
    pub id: i32,
    pub pkg_id: i32,
    /// Header keys and values, flat: key, value, key, value, ...
    pub headers: Vec<Vec<u8>>,
    pub payload: Vec<u8>,
    /// The virtual socket the message belongs to.
    pub socket_id: Vec<u8>,
    pub compress: u8,
}

pub struct PacketAck {
    pub id: i32,
    pub pkg_id: i32,
}

#[allow(non_camel_case_types)]
pub enum Packet {
    OPEN(PacketOpen),
    CLOSE(PacketClose),
    PING(PacketPing),
    PONG(PacketPong),
    RETRY(PacketRetry),
    REDIRECT(PacketRedirect),
    MESSAGE(PacketMessage),
    ACK(PacketAck),
}

/// What a packet of the uplink holds.
pub ghost enum PacketView {
    Open { ping_interval: u8, ping_timeout: u8, compress_size: u8, compress_method: u8 },
    Close { reason: Seq<char> },
    Ping,
    Pong,
    Retry { delay: u8 },
    Redirect { delay: u8, target: Seq<char> },
    Message {
        id: i32,
        pkg_id: i32,
        headers: Seq<Seq<u8>>,
        payload: Seq<u8>,
        socket_id: Seq<u8>,
        compress: u8,
    },
    Ack { id: i32, pkg_id: i32 },
}

impl View for Packet {
    type V = PacketView;

    open spec fn view(&self) -> PacketView {
        match self {
            Packet::OPEN(o) => PacketView::Open {
                ping_interval: o.ping_interval,
                ping_timeout: o.ping_timeout,
                compress_size: o.compress_size,
                compress_method: o.compress_method,
            },
            Packet::CLOSE(c) => PacketView::Close { reason: c.reason@ },
            Packet::PING(_) => PacketView::Ping,
            Packet::PONG(_) => PacketView::Pong,
            Packet::RETRY(r) => PacketView::Retry { delay: r.delay },
            Packet::REDIRECT(r) => PacketView::Redirect { delay: r.delay, target: r.target@ },
            Packet::MESSAGE(m) => PacketView::Message {
                id: m.id,
                pkg_id: m.pkg_id,
                headers: bytes_of(m.headers@),
                payload: m.payload@,
                socket_id: m.socket_id@,
                compress: m.compress,
            },
            Packet::ACK(a) => PacketView::Ack { id: a.id, pkg_id: a.pkg_id },
        }
    }
}

/// The socket id and compression flag that close a MESSAGE of the uplink.
pub open spec fn trailer_read(s: Seq<u8>) -> Option<(Seq<u8>, u8, nat)> {
    match str_read(s) {
        Some((socket_id, k1)) => match pfix_read(from(s, k1 as int)) {
            Some((compress, k2)) => Some((socket_id, compress, k1 + k2)),
            None => None,
        },
        None => None,
    }
}

/// The fields of a MESSAGE after its tag.
pub open spec fn message_read(s: Seq<u8>) -> Option<(PacketView, nat)> {
    match message_front_read(s) {
        Some((id, pkg_id, headers, payload, k1)) => match trailer_read(from(s, k1 as int)) {
            Some((socket_id, compress, k2)) => Some(
                (
                    PacketView::Message { id, pkg_id, headers, payload, socket_id, compress },
                    k1 + k2,
                ),
            ),
            None => None,
        },
        None => None,
    }
}

/// The four positive fixints of an OPEN.
pub open spec fn open_read(s: Seq<u8>) -> Option<(PacketView, nat)> {
    match two_pfix_read(s) {
        Some((a, b, k1)) => match two_pfix_read(from(s, k1 as int)) {
            Some((c, d, k2)) => Some(
                (
                    PacketView::Open {
                        ping_interval: a,
                        ping_timeout: b,
                        compress_size: c,
                        compress_method: d,
                    },
                    k1 + k2,
                ),
            ),
            None => None,
        },
        None => None,
    }
}

/// The fields that follow the tag `tag`, read from `s`.
pub open spec fn body_read(tag: u8, s: Seq<u8>) -> Option<(PacketView, nat)> {
    if tag == 6 {
        open_read(s)
    } else if tag == 7 {
        match text_read(s) {
            Some((reason, k)) => Some((PacketView::Close { reason }, k)),
            None => None,
        }
    } else if tag == 8 {
        Some((PacketView::Ping, 0))
    } else if tag == 9 {
        Some((PacketView::Pong, 0))
    } else if tag == 10 || tag == 11 {
        match pfix_read(s) {
            Some((delay, k1)) => if tag == 10 {
                Some((PacketView::Retry { delay }, k1))
            } else {
                match text_read(from(s, k1 as int)) {
                    Some((target, k2)) => Some((PacketView::Redirect { delay, target }, k1 + k2)),
                    None => None,
                }
            },
            None => None,
        }
    } else if tag == 12 {
        message_read(s)
    } else if tag == 13 {
        match two_int_read(s) {
            Some((id, pkg_id, k)) => Some((PacketView::Ack { id, pkg_id }, k)),
            None => None,
        }
    } else {
        None
    }
}

/// The packet at the start of `s` and the bytes it takes; `None` where the tag is
/// unknown or a field does not decode.
pub open spec fn packet_read(s: Seq<u8>) -> Option<(PacketView, nat)> {
    match pfix_read(s) {
        Some((tag, _)) => match body_read(tag, from(s, 1)) {
            Some((p, k)) => Some((p, 1 + k)),
            None => None,
        },
        None => None,
    }
}

/// The packets of a frame: read one after another up to its end, or up to the first
/// that does not decode.
pub open spec fn frame_read(s: Seq<u8>) -> Seq<PacketView>
    decreases s.len(),
{
    if s.len() == 0 {
        seq![]
    } else {
        match packet_read(s) {
            Some((p, k)) => if 0 < k <= s.len() {
                seq![p] + frame_read(from(s, k as int))
            } else {
                seq![]
            },
            None => seq![],
        }
    }
}

/// The bytes of a packet as this library writes it; one-byte fields are written as
/// integers in their shortest form.
pub open spec fn packet_bytes(p: PacketView) -> Seq<u8> {
    match p {
        PacketView::Open { ping_interval, ping_timeout, compress_size, compress_method } =>
            seq![6u8] + sint_bytes(ping_interval as int) + sint_bytes(ping_timeout as int)
                + sint_bytes(compress_size as int) + sint_bytes(compress_method as int),
        PacketView::Close { reason } => seq![7u8] + str_bytes(encode_utf8(reason)),
        PacketView::Ping => seq![8u8],
        PacketView::Pong => seq![9u8],
        PacketView::Retry { delay } => seq![10u8] + sint_bytes(delay as int),
        PacketView::Redirect { delay, target } => seq![11u8] + sint_bytes(delay as int)
            + str_bytes(encode_utf8(target)),
        PacketView::Message { id, pkg_id, headers, payload, socket_id, compress } => seq![12u8]
            + message_front_bytes(id, pkg_id, headers, payload) + str_bytes(socket_id)
            + sint_bytes(compress as int),
        PacketView::Ack { id, pkg_id } => seq![13u8] + sint_bytes(id as int) + sint_bytes(
            pkg_id as int,
        ),
    }
}

/// A packet that can be written: every length within the format's 32 bits.
pub open spec fn encodable(p: PacketView) -> bool {
    match p {
        PacketView::Redirect { target, .. } => encode_utf8(target).len() <= u32::MAX,
        PacketView::Close { reason } => encode_utf8(reason).len() <= u32::MAX,
        PacketView::Message { headers, payload, socket_id, .. } => headers_fit(headers)
            && payload.len() <= u32::MAX && socket_id.len() <= u32::MAX,
        _ => true,
    }
}

/// A packet that can be written and whose one-byte fields are below 0x80, so that
/// they are written as the positive fixints that the parser asks for.
pub open spec fn round_trips(p: PacketView) -> bool {
    &&& encodable(p)
    &&& match p {
        PacketView::Open { ping_interval, ping_timeout, compress_size, compress_method } =>
            ping_interval < 0x80 && ping_timeout < 0x80 && compress_size < 0x80 && compress_method
                < 0x80,
        PacketView::Retry { delay } => delay < 0x80,
        PacketView::Redirect { delay, .. } => delay < 0x80,
        PacketView::Message { compress, .. } => compress < 0x80,
        _ => true,
    }
}

/// The bytes of several packets written one after another.
pub open spec fn packets_bytes(ps: Seq<PacketView>) -> Seq<u8>
    decreases ps.len(),
{
    if ps.len() == 0 {
        seq![]
    } else {
        packet_bytes(ps[0]) + packets_bytes(ps.drop_first())
    }
}

pub struct Transport {}

impl Transport {
    /// Parses the packet that starts at `pos`: the packet and the position after it,
    /// or `None` where the tag is unknown or a field does not decode.
    pub fn parse_packet(data: &[u8], pos: usize) -> (r: Option<(Packet, usize)>)
        requires
            pos <= data@.len(),
        ensures
            match packet_read(from(data@, pos as int)) {
                Some((p, k)) => r matches Some((x, q)) && x@ == p && q == pos + k && q
                    <= data@.len(),
                None => r is None,
            },
    {
        let (tag, p) = match pfix_at(data, pos) {
            Some(t) => t,
            None => return None,
        };
        proof {
            lemma_from_from(data@, pos as int, 1);
        }
        if tag == 6 {
            match Self::parse_open(data, p) {
                Some((o, pos1)) => Some((Packet::OPEN(o), pos1)),
                None => None,
            }
        } else if tag == 7 {
            match read_text(data, p) {
                Some((reason, pos1)) => Some((Packet::CLOSE(PacketClose { reason }), pos1)),
                None => None,
            }
        } else if tag == 8 {
            Some((Packet::PING(PacketPing {}), p))
        } else if tag == 9 {
            Some((Packet::PONG(PacketPong {}), p))
        } else if tag == 10 || tag == 11 {
            let (delay, pos1) = match pfix_at(data, p) {
                Some(t) => t,
                None => return None,
            };
            proof {
                lemma_from_from(data@, p as int, pos1 - p);
            }
            if tag == 10 {
                Some((Packet::RETRY(PacketRetry { delay }), pos1))
            } else {
                match read_text(data, pos1) {
                    Some((target, pos2)) => Some(
                        (Packet::REDIRECT(PacketRedirect { delay, target }), pos2),
                    ),
                    None => None,
                }
            }
        } else if tag == 12 {
            match Self::parse_message(data, p) {
                Some((m, pos1)) => Some((Packet::MESSAGE(m), pos1)),
                None => None,
            }
        } else if tag == 13 {
            let (id, pos1) = match int_at(data, p) {
                Some(t) => t,
                None => return None,
            };
            proof {
                lemma_from_from(data@, p as int, pos1 - p);
            }
            let (pkg_id, pos2) = match int_at(data, pos1) {
                Some(t) => t,
                None => return None,
            };
            Some((Packet::ACK(PacketAck { id, pkg_id }), pos2))
        } else {
            None
        }
    }

    /// Parses the four fields of an OPEN that start at `pos`.
    fn parse_open(data: &[u8], pos: usize) -> (r: Option<(PacketOpen, usize)>)
        requires
            pos <= data@.len(),
        ensures
            match open_read(from(data@, pos as int)) {
                Some((p, k)) => r matches Some((x, q)) && Packet::OPEN(x)@ == p && q == pos + k
                    && q <= data@.len(),
                None => r is None,
            },
    {
        let (a, pos1) = match pfix_at(data, pos) {
            Some(t) => t,
            None => return None,
        };
        proof {
            lemma_from_from(data@, pos as int, pos1 - pos);
        }
        let (b, pos2) = match pfix_at(data, pos1) {
            Some(t) => t,
            None => return None,
        };
        proof {
            lemma_from_from(data@, pos as int, pos2 - pos);
        }
        let (c, pos3) = match pfix_at(data, pos2) {
            Some(t) => t,
            None => return None,
        };
        proof {
            lemma_from_from(data@, pos2 as int, pos3 - pos2);
        }
        let (d, pos4) = match pfix_at(data, pos3) {
            Some(t) => t,
            None => return None,
        };
        let open = PacketOpen {
            ping_interval: a,
            ping_timeout: b,
            compress_size: c,
            compress_method: d,
        };
        Some((open, pos4))
    }

    /// Parses the fields of a MESSAGE that start at `pos`.
    fn parse_message(data: &[u8], pos: usize) -> (r: Option<(PacketMessage, usize)>)
        requires
            pos <= data@.len(),
        ensures
            match message_read(from(data@, pos as int)) {
                Some((p, k)) => r matches Some((x, q)) && Packet::MESSAGE(x)@ == p && q == pos
                    + k && q <= data@.len(),
                None => r is None,
            },
    {
        let (id, pkg_id, headers, payload, pos1) = match read_message_front(data, pos) {
            Some(t) => t,
            None => return None,
        };
        proof {
            lemma_from_from(data@, pos as int, pos1 - pos);
        }
        let (socket_id, pos2) = match read_str(data, pos1) {
            Some(t) => t,
            None => return None,
        };
        proof {
            lemma_from_from(data@, pos1 as int, pos2 - pos1);
        }
        let (compress, pos3) = match pfix_at(data, pos2) {
            Some(t) => t,
            None => return None,
        };
        assert(trailer_read(from(from(data@, pos as int), (pos1 - pos) as int)) == Some(
            (socket_id@, compress, (pos3 - pos1) as nat),
        ));
        Some((PacketMessage { id, pkg_id, headers, payload, socket_id, compress }, pos3))
    }

    /// Splits a frame into its packets, in order, up to its end or up to the first
    /// packet that does not decode (an unknown tag included).
    pub fn parse_frame(data: &[u8]) -> (r: Vec<Packet>)
        ensures
            r@.map_values(|p: Packet| p@) == frame_read(data@),
    {
        let mut packets: Vec<Packet> = Vec::new();
        let mut pos: usize = 0;
        proof {
            assert(from(data@, 0) =~= data@);
        }
        while pos < data.len()
            invariant
                pos <= data@.len(),
                frame_read(data@) == packets@.map_values(|p: Packet| p@) + frame_read(
                    from(data@, pos as int),
                ),
            decreases data@.len() - pos,
        {
            let ghost before = packets@.map_values(|p: Packet| p@);
            match Self::parse_packet(data, pos) {
                Some((packet, next)) => {
                    proof {
                        lemma_from_from(data@, pos as int, next - pos);
                    }
                    packets.push(packet);
                    assert(packets@.map_values(|p: Packet| p@) =~= before.push(
                        packets@[packets@.len() - 1]@,
                    ));
                    pos = next;
                },
                None => {
                    assert(frame_read(data@) =~= before);
                    return packets;
                },
            }
        }
        assert(from(data@, pos as int) =~= Seq::<u8>::empty());
        assert(frame_read(data@) =~= packets@.map_values(|p: Packet| p@));
        packets
    }

    /// The bytes of `packet`.
    pub fn encode_packet(packet: &Packet) -> (r: Vec<u8>)
        requires
            encodable(packet@),
        ensures
            r@ == packet_bytes(packet@),
    {
        let mut out: Vec<u8> = Vec::new();
        match packet {
            Packet::OPEN(o) => {
                write_pfix(&mut out, 6);
                write_sint(&mut out, o.ping_interval as i64);
                write_sint(&mut out, o.ping_timeout as i64);
                write_sint(&mut out, o.compress_size as i64);
                write_sint(&mut out, o.compress_method as i64);
            },
            Packet::CLOSE(c) => {
                write_pfix(&mut out, 7);
                push_str(&mut out, c.reason.as_str().as_bytes());
            },
            Packet::PING(_) => {
                write_pfix(&mut out, 8);
            },
            Packet::PONG(_) => {
                write_pfix(&mut out, 9);
            },
            Packet::RETRY(r) => {
                write_pfix(&mut out, 10);
                write_sint(&mut out, r.delay as i64);
            },
            Packet::REDIRECT(r) => {
                write_pfix(&mut out, 11);
                write_sint(&mut out, r.delay as i64);
                push_str(&mut out, r.target.as_str().as_bytes());
            },
            Packet::MESSAGE(m) => {
                write_pfix(&mut out, 12);
                write_sint(&mut out, m.id as i64);
                write_sint(&mut out, m.pkg_id as i64);
                write_headers(&mut out, &m.headers);
                push_bin(&mut out, m.payload.as_slice());
                push_str(&mut out, m.socket_id.as_slice());
                write_sint(&mut out, m.compress as i64);
            },
            Packet::ACK(a) => {
                write_pfix(&mut out, 13);
                write_sint(&mut out, a.id as i64);
                write_sint(&mut out, a.pkg_id as i64);
            },
        }
        assert(out@ =~= packet_bytes(packet@));
        out
    }

    /// The MESSAGE that carries `payload` from the host up to the virtual socket
    /// `socket_id`: id and package id 0, no headers, no compression.
    pub fn encode_uplink_message(socket_id: &str, payload: &[u8]) -> (r: Vec<u8>)
        requires
            encode_utf8(socket_id@).len() <= u32::MAX,
            payload@.len() <= u32::MAX,
        ensures
            r@ == packet_bytes(uplink_message(encode_utf8(socket_id@), payload@)),
    {
        let mut out: Vec<u8> = Vec::new();
        write_pfix(&mut out, 12);
        write_sint(&mut out, 0);
        write_sint(&mut out, 0);
        write_map_len(&mut out, 0);
        push_bin(&mut out, payload);
        push_str(&mut out, socket_id.as_bytes());
        write_sint(&mut out, 0);
        let ghost m = uplink_message(encode_utf8(socket_id@), payload@);
        assert(strs_bytes(Seq::<Seq<u8>>::empty()) =~= Seq::<u8>::empty());
        assert(out@ =~= packet_bytes(m));
        out
    }
}

/// The MESSAGE that carries `payload` up to the virtual socket `socket_id`.
pub open spec fn uplink_message(socket_id: Seq<u8>, payload: Seq<u8>) -> PacketView {
    PacketView::Message {
        id: 0,
        pkg_id: 0,
        headers: Seq::empty(),
        payload,
        socket_id,
        compress: 0,
    }
}

/// The tag that this table gives to the kind of `p`.
pub open spec fn tag_of(p: PacketView) -> u8 {
    match p {
        PacketView::Open { .. } => 6,
        PacketView::Close { .. } => 7,
        PacketView::Ping => 8,
        PacketView::Pong => 9,
        PacketView::Retry { .. } => 10,
        PacketView::Redirect { .. } => 11,
        PacketView::Message { .. } => 12,
        PacketView::Ack { .. } => 13,
    }
}

/// The fields that follow the tag, in the bytes of `p`.
pub open spec fn body_bytes(p: PacketView) -> Seq<u8> {
    packet_bytes(p).drop_first()
}

proof fn lemma_open_round_trip(p: PacketView, rest: Seq<u8>)
    requires
        round_trips(p),
        p is Open,
    ensures
        body_read(6, body_bytes(p) + rest) == Some((p, body_bytes(p).len())),
{
    if let PacketView::Open {
        ping_interval: a,
        ping_timeout: b,
        compress_size: c,
        compress_method: d,
    } = p {
        lemma_small_sint(a, rest);
        lemma_small_sint(b, rest);
        lemma_small_sint(c, rest);
        lemma_small_sint(d, rest);
        let body = body_bytes(p) + rest;
        assert(body =~= seq![a] + (seq![b] + (seq![c] + (seq![d] + rest))));
        assert(from(body, 1) =~= seq![b] + (seq![c] + (seq![d] + rest)));
        assert(two_pfix_read(body) == Some((a, b, 2nat)));
        let t = from(body, 2);
        assert(t =~= seq![c] + (seq![d] + rest));
        assert(from(t, 1) =~= seq![d] + rest);
        assert(two_pfix_read(t) == Some((c, d, 2nat)));
    }
}

proof fn lemma_retry_round_trip(p: PacketView, rest: Seq<u8>)
    requires
        round_trips(p),
        p is Retry,
    ensures
        body_read(10, body_bytes(p) + rest) == Some((p, body_bytes(p).len())),
{
    if let PacketView::Retry { delay } = p {
        lemma_small_sint(delay, rest);
        assert(body_bytes(p) + rest =~= seq![delay] + rest);
    }
}

proof fn lemma_redirect_round_trip(p: PacketView, rest: Seq<u8>)
    requires
        round_trips(p),
        p is Redirect,
    ensures
        body_read(11, body_bytes(p) + rest) == Some((p, body_bytes(p).len())),
{
    if let PacketView::Redirect { delay, target } = p {
        let t = str_bytes(encode_utf8(target)) + rest;
        lemma_small_sint(delay, t);
        let body = body_bytes(p) + rest;
        assert(body =~= seq![delay] + t);
        assert(from(body, 1) =~= t);
        lemma_text_round_trip(target, rest);
    }
}

proof fn lemma_close_round_trip(p: PacketView, rest: Seq<u8>)
    requires
        round_trips(p),
        p is Close,
    ensures
        body_read(7, body_bytes(p) + rest) == Some((p, body_bytes(p).len())),
{
    if let PacketView::Close { reason } = p {
        assert(body_bytes(p) + rest =~= str_bytes(encode_utf8(reason)) + rest);
        lemma_text_round_trip(reason, rest);
    }
}

proof fn lemma_ack_round_trip(p: PacketView, rest: Seq<u8>)
    requires
        p is Ack,
    ensures
        body_read(13, body_bytes(p) + rest) == Some((p, body_bytes(p).len())),
{
    if let PacketView::Ack { id, pkg_id } = p {
        let a = sint_bytes(id as int);
        let body = body_bytes(p) + rest;
        lemma_sint_round_trip(id, sint_bytes(pkg_id as int) + rest);
        lemma_sint_round_trip(pkg_id, rest);
        assert(body =~= a + (sint_bytes(pkg_id as int) + rest));
        assert(from(body, a.len() as int) =~= sint_bytes(pkg_id as int) + rest);
    }
}

proof fn lemma_trailer_round_trip(socket_id: Seq<u8>, compress: u8, rest: Seq<u8>)
    requires
        socket_id.len() <= u32::MAX,
        compress < 0x80,
    ensures
        trailer_read(str_bytes(socket_id) + (sint_bytes(compress as int) + rest)) == Some(
            (socket_id, compress, str_bytes(socket_id).len() + 1),
        ),
{
    let f = str_bytes(socket_id);
    let z = sint_bytes(compress as int);
    crate::wire::lemma_str_round_trip(socket_id, z + rest);
    lemma_small_sint(compress, rest);
    let tail = f + (z + rest);
    assert(from(tail, f.len() as int) =~= z + rest);
}

/// Reading a MESSAGE back from its own bytes.
proof fn lemma_message_round_trip(p: PacketView, rest: Seq<u8>)
    requires
        round_trips(p),
        p is Message,
    ensures
        body_read(12, body_bytes(p) + rest) == Some((p, body_bytes(p).len())),
{
    if let PacketView::Message { id, pkg_id, headers, payload, socket_id, compress } = p {
        let front = message_front_bytes(id, pkg_id, headers, payload);
        let tail = str_bytes(socket_id) + (sint_bytes(compress as int) + rest);
        let s = body_bytes(p) + rest;
        assert(s =~= front + tail);
        lemma_message_front_round_trip(id, pkg_id, headers, payload, tail);
        assert(from(s, front.len() as int) =~= tail);
        lemma_trailer_round_trip(socket_id, compress, rest);
        lemma_small_sint(compress, rest);
    }
}

/// Every packet that round-trips reads back from its own bytes, whatever follows them.
pub proof fn lemma_packet_round_trip(p: PacketView, rest: Seq<u8>)
    requires
        round_trips(p),
    ensures
        packet_read(packet_bytes(p) + rest) == Some((p, packet_bytes(p).len())),
{
    let s = packet_bytes(p) + rest;
    assert(from(s, 1) =~= body_bytes(p) + rest);
    assert(s[0] == tag_of(p));
    if p is Open {
        lemma_open_round_trip(p, rest);
    } else if p is Retry {
        lemma_retry_round_trip(p, rest);
    } else if p is Redirect {
        lemma_redirect_round_trip(p, rest);
    } else if p is Close {
        lemma_close_round_trip(p, rest);
    } else if p is Message {
        lemma_message_round_trip(p, rest);
    } else if p is Ack {
        lemma_ack_round_trip(p, rest);
    }
    assert(pfix_read(s) == Some((tag_of(p), 1nat)));
}

/// Packets written one after another come back from the frame in the same order.
pub proof fn lemma_frame_round_trip(ps: Seq<PacketView>)
    requires
        forall|i: int| 0 <= i < ps.len() ==> round_trips(#[trigger] ps[i]),
    ensures
        frame_read(packets_bytes(ps)) == ps,
    decreases ps.len(),
{
    if ps.len() > 0 {
        let s = packets_bytes(ps);
        let tail = ps.drop_first();
        assert(round_trips(ps[0]));
        lemma_packet_round_trip(ps[0], packets_bytes(tail));
        assert(from(s, packet_bytes(ps[0]).len() as int) =~= packets_bytes(tail));
        assert forall|i: int| 0 <= i < tail.len() implies round_trips(#[trigger] tail[i]) by {
            assert(tail[i] == ps[i + 1]);
        }
        lemma_frame_round_trip(tail);
        assert(seq![ps[0]] + tail =~= ps);
    }
}

/// A packet followed by a byte that is no tag of this table yields that packet alone.
pub proof fn lemma_unknown_tag_stops(p: PacketView, tag: u8, rest: Seq<u8>)
    requires
        round_trips(p),
        !(6 <= tag <= 13),
    ensures
        frame_read(packet_bytes(p) + seq![tag] + rest) == seq![p],
{
    let s = packet_bytes(p) + seq![tag] + rest;
    lemma_packet_round_trip(p, seq![tag] + rest);
    assert(s =~= packet_bytes(p) + (seq![tag] + rest));
    let t = from(s, packet_bytes(p).len() as int);
    assert(t =~= seq![tag] + rest);
    assert(packet_read(t) is None);
    assert(frame_read(t) == Seq::<PacketView>::empty());
    assert(seq![p] + frame_read(t) =~= seq![p]);
}

/// A MESSAGE whose headers, payload and socket id can be written again.
pub open spec fn message_fits(p: PacketView) -> bool {
    p matches PacketView::Message { headers, payload, socket_id, .. } ==> headers_fit(headers)
        && payload.len() <= u32::MAX && socket_id.len() <= u32::MAX
}

/// Every MESSAGE split out of a frame can be written again.
pub proof fn lemma_frame_fits(s: Seq<u8>)
    ensures
        forall|i: int| 0 <= i < frame_read(s).len() ==> message_fits(#[trigger] frame_read(s)[i]),
    decreases s.len(),
{
    if s.len() > 0 {
        if let Some((p, k)) = packet_read(s) {
            if 0 < k <= s.len() {
                let b = from(s, 1);
                lemma_front_fits(b);
                if let Some((id, pkg_id, h, pl, k1)) = message_front_read(b) {
                    lemma_reads_bounded(from(b, k1 as int));
                }
                lemma_frame_fits(from(s, k as int));
                let rest = frame_read(from(s, k as int));
                assert forall|i: int| 0 <= i < frame_read(s).len() implies message_fits(
                    #[trigger] frame_read(s)[i],
                ) by {
                    if i > 0 {
                        assert(frame_read(s)[i] == rest[i - 1]);
                    }
                }
            }
        }
    }
}

proof fn lemma_open_extend(b: Seq<u8>, u: Seq<u8>)
    ensures
        open_read(b) matches Some((p, k)) ==> k <= b.len() && open_read(b + u) == open_read(b),
{
    lemma_front_extend(b, u);
    if let Some((a, c, k1)) = two_pfix_read(b) {
        lemma_from_append(b, u, k1 as int);
        lemma_front_extend(from(b, k1 as int), u);
    }
}

proof fn lemma_message_extend(b: Seq<u8>, u: Seq<u8>)
    ensures
        message_read(b) matches Some((p, k)) ==> k <= b.len() && message_read(b + u)
            == message_read(b),
{
    lemma_front_extend(b, u);
    if let Some((id, pkg_id, h, pl, k1)) = message_front_read(b) {
        let c = from(b, k1 as int);
        lemma_from_append(b, u, k1 as int);
        lemma_prim_extend(c, u);
        lemma_reads_bounded(c);
        if let Some((sid, k2)) = str_read(c) {
            lemma_from_append(c, u, k2 as int);
            lemma_prim_extend(from(c, k2 as int), u);
            lemma_reads_bounded(from(c, k2 as int));
        }
    }
}

proof fn lemma_body_extend(tag: u8, b: Seq<u8>, u: Seq<u8>)
    ensures
        body_read(tag, b) matches Some((p, k)) ==> k <= b.len() && body_read(tag, b + u)
            == body_read(tag, b),
{
    if tag == 6 {
        lemma_open_extend(b, u);
    } else if tag == 7 {
        lemma_prim_extend(b, u);
        lemma_reads_bounded(b);
    } else if tag == 10 || tag == 11 {
        lemma_prim_extend(b, u);
        lemma_reads_bounded(b);
        if let Some((d, k1)) = pfix_read(b) {
            lemma_from_append(b, u, k1 as int);
            lemma_prim_extend(from(b, k1 as int), u);
            lemma_reads_bounded(from(b, k1 as int));
        }
    } else if tag == 12 {
        lemma_message_extend(b, u);
    } else if tag == 13 {
        lemma_front_extend(b, u);
    }
}

/// A packet that reads from `t` reads the same from `t` followed by anything, and
/// takes no more than `t`.
pub proof fn lemma_packet_extend(t: Seq<u8>, u: Seq<u8>)
    ensures
        packet_read(t) matches Some((p, k)) ==> k <= t.len() && packet_read(t + u) == packet_read(
            t,
        ),
{
    lemma_prim_extend(t, u);
    lemma_reads_bounded(t);
    if let Some((tag, _)) = pfix_read(t) {
        lemma_from_append(t, u, 1);
        lemma_body_extend(tag, from(t, 1), u);
    }
}

/// Cutting the bytes of packets anywhere yields the packets that lie wholly before the
/// cut, in order, and no more.
pub proof fn lemma_truncated_frame(ps: Seq<PacketView>, j: int)
    requires
        forall|i: int| 0 <= i < ps.len() ==> round_trips(#[trigger] ps[i]),
        0 <= j <= packets_bytes(ps).len(),
    ensures
        ({
            let got = frame_read(packets_bytes(ps).subrange(0, j));
            got.len() <= ps.len() && got == ps.subrange(0, got.len() as int)
        }),
    decreases ps.len(),
{
    let s = packets_bytes(ps);
    let t = s.subrange(0, j);
    if ps.len() == 0 || j == 0 {
        assert(t.len() == 0);
        assert(frame_read(t) =~= Seq::<PacketView>::empty());
        assert(ps.subrange(0, 0) =~= Seq::<PacketView>::empty());
    } else {
        let tail = ps.drop_first();
        let first = packet_bytes(ps[0]);
        let n0 = first.len() as int;
        assert(round_trips(ps[0]));
        assert(n0 >= 1);
        assert forall|i: int| 0 <= i < tail.len() implies round_trips(#[trigger] tail[i]) by {
            assert(tail[i] == ps[i + 1]);
        }
        if j >= n0 {
            let rest = packets_bytes(tail).subrange(0, j - n0);
            assert(t =~= first + rest);
            lemma_packet_round_trip(ps[0], rest);
            assert(from(t, n0) =~= rest);
            lemma_truncated_frame(tail, j - n0);
            let got = frame_read(t);
            let more = frame_read(rest);
            assert(got == seq![ps[0]] + more);
            assert(got =~= ps.subrange(0, got.len() as int));
        } else {
            lemma_packet_round_trip(ps[0], packets_bytes(tail));
            let after = s.subrange(j, s.len() as int);
            assert(t + after =~= s);
            lemma_packet_extend(t, after);
            assert(packet_read(t) is None);
            assert(frame_read(t) =~= Seq::<PacketView>::empty());
            assert(ps.subrange(0, 0) =~= Seq::<PacketView>::empty());
        }
    }
}

} // verus!
