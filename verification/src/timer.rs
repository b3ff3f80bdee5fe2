//! What a connection does when the timer drives it.

use vstd::prelude::*;
use crate::binary_io::ToBytes;
use crate::crypto_connection::{CryptoConnection, Endpoint};
use crate::crypto_data::CryptoData;
use crate::pacing::{rate_limit, spec_rate_limit};
use crate::packet::Packet;
use crate::time::Instant;
use crate::transport::{address, spec_addressed, spec_addressed_all, spec_wires, Outgoing};

verus! {

/// What a connection sends when the timer drives it.
#[derive(Clone, Debug, PartialEq, Eq)]
pub struct ConnectionTick {
    /// The packet of the handshake, where it is due.
    pub status_packet: Option<Packet>,
    /// The data packets that go out again.
    pub resent: Vec<CryptoData>,
    /// The request for the pieces of data that are missing, where any are.
    pub request: Option<CryptoData>,
    /// The packet that shows that we are alive, where nothing else was
    /// sent for a second.
    pub keep_alive: Option<CryptoData>,
}

impl CryptoConnection {
    /// Whether this connection is `before` after the timer drove it at
    /// `now` and it sent `tick`.
    ///
    /// The packet of the handshake goes out where it is due. The loss of
    /// packets is weighed where the interval for it is over. The pieces of
    /// data that are marked for it go out again, as many as the send window
    /// allows for the time since the timer drove the connection last. A
    /// request goes out where pieces of data are missing, and a packet
    /// without data where a connection with a session has been idle.
    pub open spec fn is_ticked_after(
        &self,
        before: &CryptoConnection,
        now: Instant,
        tick: ConnectionTick,
    ) -> bool {
        exists|
            sending: CryptoConnection,
            weighed: CryptoConnection,
            resent: CryptoConnection,
            alive: CryptoConnection,
            numbers: Seq<u32>,
        |
            {
                &&& #[trigger] Self::is_tick_chain(
                    before,
                    &sending,
                    &weighed,
                    &resent,
                    &alive,
                    self,
                    numbers,
                    now,
                    tick,
                )
            }
    }

    /// Whether the connections `sending`, `weighed`, `resent`, `alive` and
    /// `after` are what becomes of `before`, step by step, when the timer
    /// drives it at `now` and it sends `tick`.
    pub open spec fn is_tick_chain(
        before: &CryptoConnection,
        sending: &CryptoConnection,
        weighed: &CryptoConnection,
        resent: &CryptoConnection,
        alive: &CryptoConnection,
        after: &CryptoConnection,
        numbers: Seq<u32>,
        now: Instant,
        tick: ConnectionTick,
    ) -> bool {
        let limit = spec_rate_limit(
            weighed.send_window,
            weighed.rtt.nanos,
            now.spec_since(before.last_tick_time) as u64,
        );
        &&& match before.status.spec_packet() {
            Some(status_packet) if status_packet.spec_should_be_sent(now) => {
                &&& tick.status_packet matches Some(packet) && packet.wire()
                    == status_packet.spec_wire()
                &&& *sending == CryptoConnection {
                    status: before.status.spec_with_packet(status_packet.spec_sent(now)),
                    ..*before
                }
            },
            _ => tick.status_packet is None && *sending == *before,
        }
        &&& weighed.is_weighed_after(sending, now)
        &&& if sending.spec_is_established() {
            resent.is_resent_after(weighed, tick.resent@, numbers, now, limit)
        } else {
            tick.resent@.len() == 0 && *resent == *weighed
        }
        &&& match tick.request {
            Some(packet) => resent.spec_is_established() && resent.is_request_packet(packet),
            None => !resent.spec_is_established() || forall|seq: u32| #[trigger]
                resent.recv_array.in_window(seq) ==> resent.recv_array@.contains_key(seq),
        }
        &&& match tick.keep_alive {
            Some(packet) => {
                &&& resent.spec_session() is Some
                &&& resent.spec_is_idle(now)
                &&& resent.is_unkept_packet(packet, Seq::empty())
                &&& *alive == CryptoConnection { last_sent_time: Some(now), ..*resent }
            },
            None => {
                &&& !(resent.spec_session() is Some && resent.spec_is_idle(now))
                &&& *alive == *resent
            },
        }
        &&& *after == CryptoConnection {
            last_tick_time: now,
            udp_send_attempt_time: if alive.udp_addr is Some && tick.spec_sends() {
                Some(now)
            } else {
                alive.udp_send_attempt_time
            },
            ..*alive
        }
    }

    /// The timer leaves a connection with the same peer.
    pub proof fn lemma_ticked_keeps_peer(
        &self,
        before: &CryptoConnection,
        now: Instant,
        tick: ConnectionTick,
    )
        requires
            self.is_ticked_after(before, now, tick),
        ensures
            self.peer_real_pk == before.peer_real_pk,
    {
        let (sending, weighed, resent, alive, numbers) = choose|
            sending: CryptoConnection,
            weighed: CryptoConnection,
            resent: CryptoConnection,
            alive: CryptoConnection,
            numbers: Seq<u32>,
        | #[trigger]
            Self::is_tick_chain(
                before,
                &sending,
                &weighed,
                &resent,
                &alive,
                self,
                numbers,
                now,
                tick,
            );
    }

    /// Drives the connection at `now`: gives out what is due to be sent.
    pub fn tick(&mut self, now: Instant) -> (tick: ConnectionTick)
        requires
            old(self).wf(),
        ensures
            final(self).wf(),
            final(self).is_ticked_after(old(self), now, tick),
    {
        let elapsed = now.duration_since(self.last_tick_time).nanos;
        let status_packet = self.packet_to_send(now);
        let ghost sending = *self;
        self.update_congestion(now);
        let ghost weighed = *self;
        let limit = rate_limit(self.send_window, self.rtt.nanos, elapsed);
        let (resent, numbers) = self.retransmit(now, limit);
        let ghost resent_state = *self;
        let request = self.request_missing();
        let keep_alive = self.keep_alive(now);
        let ghost alive = *self;
        let tick = ConnectionTick { status_packet, resent, request, keep_alive };
        if tick.sends() {
            self.note_sent(now);
        }
        self.last_tick_time = now;
        proof {
            assert(Self::is_tick_chain(
                old(self),
                &sending,
                &weighed,
                &resent_state,
                &alive,
                self,
                numbers@,
                now,
                tick,
            ));
        }
        tick
    }
}

impl ConnectionTick {
    /// What goes out at `now` for the connection `connection`: the packet
    /// of the handshake by every way that the connection has, and behind it
    /// the data packets, the request and the sign of life, each by the ways
    /// by which data goes.
    pub open spec fn spec_wires(&self, connection: &CryptoConnection, now: Instant) -> Seq<
        (Endpoint, Seq<u8>),
    > {
        let status = match self.status_packet {
            Some(packet) => spec_addressed(connection.spec_status_endpoints(), packet.wire()),
            None => Seq::empty(),
        };
        let request = match self.request {
            Some(packet) => spec_addressed(
                connection.spec_data_endpoints(now),
                Packet::CryptoData(packet).wire(),
            ),
            None => Seq::empty(),
        };
        let keep_alive = match self.keep_alive {
            Some(packet) => spec_addressed(
                connection.spec_data_endpoints(now),
                Packet::CryptoData(packet).wire(),
            ),
            None => Seq::empty(),
        };
        status + spec_addressed_all(connection.spec_data_endpoints(now), self.resent@) + request
            + keep_alive
    }

    /// Appends to `out` what goes out at `now` for the connection
    /// `connection`.
    pub fn address(&self, connection: &CryptoConnection, now: Instant, out: &mut Vec<Outgoing>)
        ensures
            spec_wires(final(out)@) == spec_wires(old(out)@) + self.spec_wires(connection, now),
    {
        let status_endpoints = connection.status_endpoints();
        let data_endpoints = connection.data_endpoints(now);
        let ghost start = spec_wires(out@);
        if let Some(packet) = &self.status_packet {
            address(out, &status_endpoints, packet);
        }
        let ghost status = spec_wires(out@);
        let n = self.resent.len();
        let mut k: usize = 0;
        proof {
            assert(self.resent@.subrange(0, 0) =~= Seq::<CryptoData>::empty());
            assert(status + spec_addressed_all(data_endpoints@, self.resent@.subrange(0, 0))
                =~= status);
        }
        while k < n
            invariant
                k <= n,
                n == self.resent@.len(),
                spec_wires(out@) == status + spec_addressed_all(
                    data_endpoints@,
                    self.resent@.subrange(0, k as int),
                ),
            decreases n - k,
        {
            let packet = Packet::CryptoData(self.resent[k].duplicate());
            address(out, &data_endpoints, &packet);
            proof {
                let next = self.resent@.subrange(0, k + 1);
                assert(next.drop_last() =~= self.resent@.subrange(0, k as int));
                assert(next.last() == self.resent@[k as int]);
                assert(spec_wires(out@) =~= status + spec_addressed_all(data_endpoints@, next));
            }
            k += 1;
        }
        proof {
            assert(self.resent@.subrange(0, n as int) =~= self.resent@);
        }
        if let Some(packet) = &self.request {
            address(out, &data_endpoints, &Packet::CryptoData(packet.duplicate()));
        }
        if let Some(packet) = &self.keep_alive {
            address(out, &data_endpoints, &Packet::CryptoData(packet.duplicate()));
        }
        proof {
            assert(spec_wires(out@) =~= start + self.spec_wires(connection, now));
        }
    }

    /// Whether anything is sent.
    pub open spec fn spec_sends(&self) -> bool {
        ||| self.status_packet is Some
        ||| self.resent@.len() > 0
        ||| self.request is Some
        ||| self.keep_alive is Some
    }

    /// Whether anything is sent.
    pub fn sends(&self) -> (sends: bool)
        ensures
            sends == self.spec_sends(),
    {
        self.status_packet.is_some() || self.resent.len() > 0 || self.request.is_some()
            || self.keep_alive.is_some()
    }
}

} // verus!
