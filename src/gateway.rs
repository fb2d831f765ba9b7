//! The dev-mode uplink: what the core learns from the relay, and the re-encoding of
//! the messages it forwards to the host and from the host.
use vstd::prelude::*;
use vstd::utf8::*;
use crate::gateway_transport::{Packet, PacketMessage, PacketView, Transport, frame_read};
use crate::gateway_transport::PacketPing;
use crate::socket::{host_message_bytes, write_host_message, Tick};
use crate::server::pair_view;
use crate::wire::{bytes_of, headers_fit};

verus! {

/// What the uplink has learned from the relay's OPEN; the compression settings are
/// recorded and not acted on.
#[derive(Clone, Copy)]
pub struct UplinkSettings {
    pub ping_interval: u8,
    pub ping_timeout: u8,
    pub compress_size: u8,
    pub compress_method: u8,
}

/// The state of the uplink: its settings and its heartbeat.
#[derive(Clone, Copy)]
pub struct Gateway {
    pub settings: UplinkSettings,
    /// When the last frame arrived, in seconds.
    pub last_heartbeat: u64,
}

/// The settings after the packets `ps`: those of the last OPEN among them, else `g`.
pub open spec fn settings_after(g: UplinkSettings, ps: Seq<PacketView>) -> UplinkSettings
    decreases ps.len(),
{
    if ps.len() == 0 {
        g
    } else {
        match ps.last() {
            PacketView::Open { ping_interval, ping_timeout, compress_size, compress_method } =>
                UplinkSettings { ping_interval, ping_timeout, compress_size, compress_method },
            _ => settings_after(g, ps.drop_last()),
        }
    }
}

/// The bytes handed to the host for each MESSAGE among `ps`, in order, each with the
/// socket id it carries.
pub open spec fn host_messages(ps: Seq<PacketView>) -> Seq<Seq<u8>>
    decreases ps.len(),
{
    if ps.len() == 0 {
        seq![]
    } else {
        let before = host_messages(ps.drop_last());
        match ps.last() {
            PacketView::Message { pkg_id, headers, payload, socket_id, .. } => before.push(
                host_message_bytes(pkg_id, headers, payload, socket_id),
            ),
            _ => before,
        }
    }
}

/// The `application/x-www-form-urlencoded` form of the pairs, in order.
pub uninterp spec fn form_encoded(pairs: Seq<(Seq<char>, Seq<char>)>) -> Seq<char>;

/// Relies on url::form_urlencoded::Serializer: the pairs written as a query string, in
/// order; the text depends on the pairs alone.
#[verifier::external_body]
fn encode_query(pairs: &Vec<(String, String)>) -> (r: String)
    ensures
        r@ == form_encoded(pairs@.map_values(|p: (String, String)| pair_view(p))),
{
    url::form_urlencoded::Serializer::new(String::new()).extend_pairs(pairs).finish()
}

/// The pairs of the query that opens the uplink, in order.
pub open spec fn uplink_pairs(
    upstream_id: Seq<char>,
    appid: Seq<char>,
    version: Seq<char>,
    sdk: Seq<char>,
) -> Seq<(Seq<char>, Seq<char>)> {
    seq![("usid"@, upstream_id), ("appid"@, appid), ("ver"@, version), ("sdk"@, sdk)]
}

impl Gateway {
    /// The query that opens the uplink: `usid`, `appid`, `ver` and `sdk`, in that order.
    pub fn uplink_query(upstream_id: &str, appid: &str, version: &str, sdk: &str) -> (r: String)
        ensures
            r@ == form_encoded(uplink_pairs(upstream_id@, appid@, version@, sdk@)),
    {
        proof {
            reveal_strlit("usid");
            reveal_strlit("appid");
            reveal_strlit("ver");
            reveal_strlit("sdk");
        }
        let mut pairs: Vec<(String, String)> = Vec::new();
        pairs.push(("usid".to_owned(), upstream_id.to_owned()));
        pairs.push(("appid".to_owned(), appid.to_owned()));
        pairs.push(("ver".to_owned(), version.to_owned()));
        pairs.push(("sdk".to_owned(), sdk.to_owned()));
        assert(pairs@.map_values(|p: (String, String)| pair_view(p)) =~= uplink_pairs(
            upstream_id@,
            appid@,
            version@,
            sdk@,
        ));
        encode_query(&pairs)
    }

    /// The uplink as it connects at `now`: the server defaults until the relay's OPEN,
    /// no compression.
    pub fn new(now: u64) -> (r: Gateway)
        ensures
            r == (Gateway {
                settings: UplinkSettings {
                    ping_interval: crate::socket::PING_INTERVAL,
                    ping_timeout: crate::socket::PING_TIMEOUT,
                    compress_size: 0,
                    compress_method: 0,
                },
                last_heartbeat: now,
            }),
    {
        let settings = UplinkSettings {
            ping_interval: crate::socket::PING_INTERVAL,
            ping_timeout: crate::socket::PING_TIMEOUT,
            compress_size: 0,
            compress_method: 0,
        };
        Gateway { settings, last_heartbeat: now }
    }

    /// The heartbeat at `now`: a ping while the relay is on time, else shutdown.
    pub fn on_tick(&self, now: u64) -> (r: Tick)
        ensures
            r == if now > self.last_heartbeat + self.settings.ping_interval
                + self.settings.ping_timeout {
                Tick::Close
            } else {
                Tick::Ping
            },
    {
        let limit = self.settings.ping_interval as u64 + self.settings.ping_timeout as u64;
        if now > self.last_heartbeat && now - self.last_heartbeat > limit {
            Tick::Close
        } else {
            Tick::Ping
        }
    }

    /// The PING the heartbeat sends up the uplink.
    pub fn ping_frame() -> (r: Vec<u8>)
        ensures
            r@ == seq![8u8],
    {
        let r = Transport::encode_packet(&Packet::PING(PacketPing {}));
        assert(r@ =~= seq![8u8]);
        r
    }

    /// The bytes handed to the host for `msg`, with the socket id it carries.
    pub fn encode_message(msg: &PacketMessage) -> (r: Vec<u8>)
        requires
            headers_fit(bytes_of(msg.headers@)),
            msg.payload@.len() <= u32::MAX,
            msg.socket_id@.len() <= u32::MAX,
        ensures
            r@ == host_message_bytes(
                msg.pkg_id,
                bytes_of(msg.headers@),
                msg.payload@,
                msg.socket_id@,
            ),
    {
        write_host_message(msg.pkg_id, &msg.headers, msg.payload.as_slice(), msg.socket_id.as_slice())
    }

    /// One frame from the relay, at `now`: an OPEN sets the settings, each MESSAGE goes
    /// to the host, and every frame counts as a heartbeat.
    pub fn on_frame(&mut self, data: &[u8], now: u64) -> (r: Vec<Vec<u8>>)
        ensures
            bytes_of(r@) == host_messages(frame_read(data@)),
            final(self).settings == settings_after(old(self).settings, frame_read(data@)),
            final(self).last_heartbeat == if now > old(self).last_heartbeat {
                now
            } else {
                old(self).last_heartbeat
            },
    {
        let packets = Transport::parse_frame(data);
        let ghost ps = frame_read(data@);
        let ghost start = self.settings;
        proof {
            crate::gateway_transport::lemma_frame_fits(data@);
        }
        let mut to_host: Vec<Vec<u8>> = Vec::new();
        let mut i: usize = 0;
        while i < packets.len()
            invariant
                packets@.map_values(|p: Packet| p@) == ps,
                i <= packets@.len(),
                forall|j: int| 0 <= j < ps.len() ==> crate::gateway_transport::message_fits(
                    #[trigger] ps[j],
                ),
                bytes_of(to_host@) == host_messages(ps.subrange(0, i as int)),
                self.settings == settings_after(start, ps.subrange(0, i as int)),
                self.last_heartbeat == old(self).last_heartbeat,
            decreases packets@.len() - i,
        {
            let ghost before = ps.subrange(0, i as int);
            let ghost next = ps.subrange(0, i + 1);
            assert(next.drop_last() =~= before);
            assert(next.last() == packets@[i as int]@);
            assert(crate::gateway_transport::message_fits(ps[i as int]));
            match &packets[i] {
                Packet::OPEN(o) => {
                    self.settings = UplinkSettings {
                        ping_interval: o.ping_interval,
                        ping_timeout: o.ping_timeout,
                        compress_size: o.compress_size,
                        compress_method: o.compress_method,
                    };
                },
                Packet::MESSAGE(m) => {
                    let bytes = Self::encode_message(m);
                    to_host.push(bytes);
                    assert(bytes_of(to_host@) =~= host_messages(before).push(bytes@));
                },
                _ => {},
            }
            i = i + 1;
        }
        assert(ps.subrange(0, i as int) =~= ps);
        if now > self.last_heartbeat {
            self.last_heartbeat = now;
        }
        to_host
    }

    /// The frame that carries `payload` from the host up to the virtual socket
    /// `socket_id`.
    pub fn uplink_frame(socket_id: &str, payload: &[u8]) -> (r: Vec<u8>)
        requires
            encode_utf8(socket_id@).len() <= u32::MAX,
            payload@.len() <= u32::MAX,
        ensures
            r@ == crate::gateway_transport::packet_bytes(
                crate::gateway_transport::uplink_message(encode_utf8(socket_id@), payload@),
            ),
    {
        Transport::encode_uplink_message(socket_id, payload)
    }
}

} // verus!
