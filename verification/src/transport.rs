//! By which ways the packets of a connection go out.
//!
//! A peer can be reached directly by UDP once its address is known, and
//! through a TCP relay once one is known. Data packets go by UDP wherever
//! an address is known, and through the relay as well while nothing has
//! come in by UDP for 8 seconds. The packets of the handshake go by every
//! way there is.

use vstd::prelude::*;
use crate::binary_io::ToBytes;
use crate::crypto_connection::{CryptoConnection, Endpoint};
use crate::crypto_data::CryptoData;
use crate::packet::Packet;
use crate::time::Instant;

verus! {

/// A packet on its way out, with the way that it takes.
#[derive(Clone, Debug, PartialEq, Eq)]
pub struct Outgoing {
    /// How the packet reaches the peer.
    pub endpoint: Endpoint,
    /// The packet.
    pub packet: Packet,
}

/// What goes out with the packets `out`: for each packet the way that it
/// takes and its bytes.
pub open spec fn spec_wires(out: Seq<Outgoing>) -> Seq<(Endpoint, Seq<u8>)> {
    out.map_values(|o: Outgoing| (o.endpoint, o.packet.wire()))
}

/// The bytes `wire` on each of the ways `endpoints`.
pub open spec fn spec_addressed(endpoints: Seq<Endpoint>, wire: Seq<u8>) -> Seq<
    (Endpoint, Seq<u8>),
> {
    endpoints.map_values(|e: Endpoint| (e, wire))
}

/// The data packets `packets`, one after the other, each on each of the
/// ways `endpoints`.
pub open spec fn spec_addressed_all(endpoints: Seq<Endpoint>, packets: Seq<CryptoData>) -> Seq<
    (Endpoint, Seq<u8>),
>
    decreases packets.len(),
{
    if packets.len() == 0 {
        Seq::empty()
    } else {
        spec_addressed_all(endpoints, packets.drop_last()) + spec_addressed(
            endpoints,
            Packet::CryptoData(packets.last()).wire(),
        )
    }
}

/// Appends `packet` to `out` once for each of `endpoints`.
pub fn address(out: &mut Vec<Outgoing>, endpoints: &Vec<Endpoint>, packet: &Packet)
    ensures
        spec_wires(final(out)@) == spec_wires(old(out)@) + spec_addressed(
            endpoints@,
            packet.wire(),
        ),
        final(out)@.len() == old(out)@.len() + endpoints@.len(),
        forall|i: int| 0 <= i < old(out)@.len() ==> final(out)@[i] == old(out)@[i],
        forall|i: int|
            0 <= i < endpoints@.len() ==> (#[trigger] final(out)@[old(out)@.len() + i]).endpoint
                == endpoints@[i] && final(out)@[old(out)@.len() + i].packet.wire()
                == packet.wire(),
{
    let n = endpoints.len();
    let mut k: usize = 0;
    while k < n
        invariant
            k <= n,
            n == endpoints@.len(),
            out@.len() == old(out)@.len() + k,
            forall|i: int| 0 <= i < old(out)@.len() ==> out@[i] == old(out)@[i],
            forall|i: int|
                0 <= i < k ==> (#[trigger] out@[old(out)@.len() + i]).endpoint == endpoints@[i]
                    && out@[old(out)@.len() + i].packet.wire() == packet.wire(),
        decreases n - k,
    {
        out.push(Outgoing { endpoint: endpoints[k], packet: packet.duplicate() });
        k += 1;
    }
    proof {
        let n0 = old(out)@.len() as int;
        assert forall|i: int| 0 <= i < out@.len() implies spec_wires(out@)[i] == (spec_wires(
            old(out)@,
        ) + spec_addressed(endpoints@, packet.wire()))[i] by {
            if i >= n0 {
                assert(out@[n0 + (i - n0)].endpoint == endpoints@[i - n0]);
            } else {
                assert(out@[i] == old(out)@[i]);
            }
        }
        assert(spec_wires(out@) =~= spec_wires(old(out)@) + spec_addressed(
            endpoints@,
            packet.wire(),
        ));
    }
}

impl CryptoConnection {
    /// Every way by which the peer can be reached: by UDP where its address
    /// is known, and through the TCP relay where one is known.
    pub open spec fn spec_status_endpoints(&self) -> Seq<Endpoint> {
        let udp = match self.udp_addr {
            Some(addr) => seq![Endpoint::Udp(addr)],
            None => Seq::empty(),
        };
        let tcp = match self.tcp_relay {
            Some(relay_id) => seq![
                Endpoint::TcpRelay { relay_id, dest_dht_pk: self.peer_dht_pk },
            ],
            None => Seq::empty(),
        };
        udp + tcp
    }

    /// The ways by which a data packet goes out at `now`: by UDP where the
    /// address of the peer is known, and through the TCP relay as well where
    /// one is known and UDP is not alive.
    pub open spec fn spec_data_endpoints(&self, now: Instant) -> Seq<Endpoint> {
        let udp = match self.udp_addr {
            Some(addr) => seq![Endpoint::Udp(addr)],
            None => Seq::empty(),
        };
        let tcp = match self.tcp_relay {
            Some(relay_id) if !self.spec_is_udp_alive(now) => seq![
                Endpoint::TcpRelay { relay_id, dest_dht_pk: self.peer_dht_pk },
            ],
            _ => Seq::empty(),
        };
        udp + tcp
    }

    /// Every way by which the peer can be reached.
    pub fn status_endpoints(&self) -> (endpoints: Vec<Endpoint>)
        ensures
            endpoints@ == self.spec_status_endpoints(),
    {
        let mut endpoints: Vec<Endpoint> = Vec::new();
        if let Some(addr) = self.udp_addr {
            endpoints.push(Endpoint::Udp(addr));
        }
        if let Some(relay_id) = self.tcp_relay {
            endpoints.push(Endpoint::TcpRelay { relay_id, dest_dht_pk: self.peer_dht_pk });
        }
        assert(endpoints@ =~= self.spec_status_endpoints());
        endpoints
    }

    /// The ways by which a data packet goes out at `now`.
    pub fn data_endpoints(&self, now: Instant) -> (endpoints: Vec<Endpoint>)
        ensures
            endpoints@ == self.spec_data_endpoints(now),
    {
        let mut endpoints: Vec<Endpoint> = Vec::new();
        if let Some(addr) = self.udp_addr {
            endpoints.push(Endpoint::Udp(addr));
        }
        if let Some(relay_id) = self.tcp_relay {
            if !self.is_udp_alive(now) {
                endpoints.push(Endpoint::TcpRelay { relay_id, dest_dht_pk: self.peer_dht_pk });
            }
        }
        assert(endpoints@ =~= self.spec_data_endpoints(now));
        endpoints
    }

    /// Notes that a packet from the peer came in at `now` by the way
    /// `source`: a packet that came by UDP tells the address of the peer and
    /// shows that UDP is alive.
    pub fn note_received(&mut self, source: Endpoint, now: Instant)
        ensures
            *final(self) == match source {
                Endpoint::Udp(addr) => CryptoConnection {
                    udp_addr: Some(addr),
                    udp_received_time: Some(now),
                    ..*old(self)
                },
                Endpoint::TcpRelay { relay_id, .. } => CryptoConnection {
                    tcp_relay: Some(relay_id),
                    ..*old(self)
                },
            },
    {
        match source {
            Endpoint::Udp(addr) => {
                self.udp_addr = Some(addr);
                self.update_udp_received_time(now);
            },
            Endpoint::TcpRelay { relay_id, .. } => {
                self.tcp_relay = Some(relay_id);
            },
        }
    }

    /// Notes that packets went out at `now` by the ways that the connection
    /// has: where the address of the peer is known, UDP was tried.
    pub fn note_sent(&mut self, now: Instant)
        ensures
            *final(self) == if old(self).udp_addr is Some {
                CryptoConnection { udp_send_attempt_time: Some(now), ..*old(self) }
            } else {
                *old(self)
            },
    {
        if self.udp_addr.is_some() {
            self.update_udp_send_attempt_time(now);
        }
    }
}

} // verus!
