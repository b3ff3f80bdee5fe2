//! Why data comes out at the receiving end in the order in which it went in
//! at the sending end.
//!
//! The receiving end of a connection is looked at on its own here, as a
//! window of numbered pieces of data. Packets come in in any order and any
//! number of times, and the application asks for the next piece whenever it
//! likes. Whatever the order of these events, the pieces that the
//! application gets are the pieces with the numbers from the start of the
//! window on, one after the other, each once.

use vstd::prelude::*;
use crate::crypto_connection::{CryptoConnection, RecvPacket};
use crate::data_channel::DataKind;
use crate::error::Error;
use crate::packets_array::PacketsArray;
use crate::request::spec_is_valid_data;
use crate::time::Instant;

verus! {

/// Something that happens at the receiving end of a connection.
pub enum RecvEvent {
    /// A data packet with a piece of data for the application comes in.
    Packet {
        /// The sequence number of the packet.
        number: u32,
        /// The piece of data.
        data: Seq<u8>,
    },
    /// The application asks for the next piece of data.
    Poll,
}

/// The receiving end of a connection: the number of the piece of data that
/// the application gets next, and the pieces that wait for the application,
/// each under its number.
pub struct RecvModel {
    /// The number of the piece that the application gets next.
    pub start: u32,
    /// The pieces that wait for the application.
    pub packets: Map<u32, Seq<u8>>,
}

/// The receiving end that the receive array `array` stands for.
pub open spec fn spec_model(array: PacketsArray<RecvPacket>) -> RecvModel {
    RecvModel {
        start: array.buffer_start,
        packets: Map::new(|n: u32| array@.contains_key(n), |n: u32| array@[n].data@),
    }
}

/// The sequence number `count` places behind `base`.
pub open spec fn spec_number(base: u32, count: int) -> u32 {
    ((base + count) % 0x1_0000_0000) as u32
}

/// The receiving end `model` after `event`, and the piece of data that the
/// application got, if it got one.
///
/// A packet is kept where its number lies fewer than 65536 places behind
/// the start and no piece with that number waits already. The application
/// gets the piece with the number at the start, if it is there.
pub open spec fn spec_step(model: RecvModel, event: RecvEvent) -> (RecvModel, Option<Seq<u8>>) {
    match event {
        RecvEvent::Packet { number, data } => {
            if number.wrapping_sub(model.start) < 65536 && !model.packets.contains_key(number) {
                (RecvModel { start: model.start, packets: model.packets.insert(number, data) }, None)
            } else {
                (model, None)
            }
        },
        RecvEvent::Poll => {
            if model.packets.contains_key(model.start) {
                (
                    RecvModel {
                        start: model.start.wrapping_add(1),
                        packets: model.packets.remove(model.start),
                    },
                    Some(model.packets[model.start]),
                )
            } else {
                (model, None)
            }
        },
    }
}

/// The receiving end `model` after the events `events`, and the pieces of
/// data that the application got, in the order in which it got them.
pub open spec fn spec_run(model: RecvModel, events: Seq<RecvEvent>) -> (RecvModel, Seq<Seq<u8>>)
    decreases events.len(),
{
    if events.len() == 0 {
        (model, Seq::empty())
    } else {
        let (before, delivered) = spec_run(model, events.drop_last());
        let (after, piece) = spec_step(before, events.last());
        match piece {
            Some(data) => (after, delivered.push(data)),
            None => (after, delivered),
        }
    }
}

/// Whether every packet among `events` carries the piece of data that the
/// sender gave the number of the packet.
pub open spec fn spec_carry(events: Seq<RecvEvent>, sent: spec_fn(u32) -> Seq<u8>) -> bool {
    forall|i: int|
        0 <= i < events.len() ==> match #[trigger] events[i] {
            RecvEvent::Packet { number, data } => data == sent(number),
            RecvEvent::Poll => true,
        }
}

/// Whether every piece that waits at the receiving end `model` is the piece
/// that the sender gave its number, and the start lies `count` places
/// behind `base`.
pub open spec fn spec_in_order(
    model: RecvModel,
    base: u32,
    count: int,
    sent: spec_fn(u32) -> Seq<u8>,
) -> bool {
    &&& model.start == spec_number(base, count)
    &&& forall|n: u32| #[trigger] model.packets.contains_key(n) ==> model.packets[n] == sent(n)
}

/// Whatever the order in which packets come in and however often each
/// comes, the application gets the pieces of data in the order of their
/// numbers, from the start of the window on, without a gap and each once:
/// where every packet carries what the sender gave its number, the piece
/// that the application gets as its `j`-th is the piece that the sender
/// gave the number `j` places behind the start.
pub proof fn lemma_delivery_in_order(
    base: u32,
    events: Seq<RecvEvent>,
    sent: spec_fn(u32) -> Seq<u8>,
)
    requires
        spec_carry(events, sent),
    ensures
        ({
            let start = RecvModel { start: base, packets: Map::empty() };
            let (model, delivered) = spec_run(start, events);
            &&& spec_in_order(model, base, delivered.len() as int, sent)
            &&& forall|j: int|
                0 <= j < delivered.len() ==> #[trigger] delivered[j] == sent(spec_number(base, j))
        }),
    decreases events.len(),
{
    let start = RecvModel { start: base, packets: Map::empty() };
    if events.len() > 0 {
        let rest = events.drop_last();
        assert(spec_carry(rest, sent)) by {
            assert forall|i: int| 0 <= i < rest.len() implies match #[trigger] rest[i] {
                RecvEvent::Packet { number, data } => data == sent(number),
                RecvEvent::Poll => true,
            } by {
                assert(rest[i] == events[i]);
            }
        }
        lemma_delivery_in_order(base, rest, sent);
        let (before, delivered) = spec_run(start, rest);
        let event = events.last();
        assert(event == events[events.len() - 1]);
        let (after, piece) = spec_step(before, event);
        match event {
            RecvEvent::Packet { number, data } => {
                assert(data == sent(number));
            },
            RecvEvent::Poll => {},
        }
    }
}

/// Taking in a piece of data for the application does to the receive array
/// what a packet does to the receiving end that the array stands for.
pub proof fn lemma_store_is_a_step(
    after: &CryptoConnection,
    before: &CryptoConnection,
    packet_number: u32,
    data: Vec<u8>,
    now: Instant,
    res: Result<DataKind, Error>,
)
    requires
        spec_is_valid_data(data@),
        after.is_stored_after(before, packet_number, data, now, res),
    ensures
        spec_model(after.recv_array) == spec_step(
            spec_model(before.recv_array),
            RecvEvent::Packet { number: packet_number, data: data@ },
        ).0,
        res is Ok <==> !spec_model(before.recv_array).packets.contains_key(packet_number)
            && packet_number.wrapping_sub(before.recv_array.buffer_start) < 65536,
{
    let model = spec_model(before.recv_array);
    let stepped = spec_step(model, RecvEvent::Packet { number: packet_number, data: data@ }).0;
    assert(spec_model(after.recv_array).packets =~= stepped.packets);
}

/// Handing a piece of data to the application does to the receive array
/// what the application's asking does to the receiving end that the array
/// stands for, and the application gets the same piece.
pub proof fn lemma_poll_is_a_step(
    after: &CryptoConnection,
    before: &CryptoConnection,
    res: Option<Vec<u8>>,
)
    requires
        after.is_polled_after(before, res),
    ensures
        spec_model(after.recv_array) == spec_step(
            spec_model(before.recv_array),
            RecvEvent::Poll,
        ).0,
        match res {
            Some(data) => spec_step(spec_model(before.recv_array), RecvEvent::Poll).1 == Some(
                data@,
            ),
            None => spec_step(spec_model(before.recv_array), RecvEvent::Poll).1 is None,
        },
{
    let model = spec_model(before.recv_array);
    let stepped = spec_step(model, RecvEvent::Poll).0;
    assert(spec_model(after.recv_array).packets =~= stepped.packets);
}

/// Whether `event` is a packet with the number `number`.
pub open spec fn spec_is_packet(event: RecvEvent, number: u32) -> bool {
    match event {
        RecvEvent::Packet { number: n, .. } => n == number,
        RecvEvent::Poll => false,
    }
}

/// Whether a packet with the number `number` is among `events`.
pub open spec fn spec_received(events: Seq<RecvEvent>, number: u32) -> bool {
    exists|i: int| 0 <= i < events.len() && spec_is_packet(#[trigger] events[i], number)
}

/// Whether every packet among `events` has one of the `n` numbers from
/// `base` on.
pub open spec fn spec_within(events: Seq<RecvEvent>, base: u32, n: int) -> bool {
    forall|i: int|
        0 <= i < events.len() ==> match #[trigger] events[i] {
            RecvEvent::Packet { number, .. } => number.wrapping_sub(base) < n,
            RecvEvent::Poll => true,
        }
}

/// `n` times the application's asking for the next piece of data.
pub open spec fn spec_polls(n: nat) -> Seq<RecvEvent> {
    Seq::new(n, |i: int| RecvEvent::Poll)
}

/// Whether the receiving end `model` holds just those of the `n` pieces
/// from `base` on that have come in with `events` and that the application
/// has not got yet, after it got `count` of them.
pub open spec fn spec_holds_received(
    model: RecvModel,
    events: Seq<RecvEvent>,
    base: u32,
    n: int,
    count: int,
) -> bool {
    &&& 0 <= count <= n
    &&& model.start == spec_number(base, count)
    &&& forall|k: u32| #[trigger]
        model.packets.contains_key(k) <==> (count <= k.wrapping_sub(base) < n && spec_received(
            events,
            k,
        ))
}

/// While packets with `n` numbers in a row come in, no more than 65536,
/// the receiving end holds every piece that has come in until the
/// application gets it.
pub proof fn lemma_received_is_held(base: u32, events: Seq<RecvEvent>, n: int)
    requires
        0 <= n <= 65536,
        spec_within(events, base, n),
    ensures
        ({
            let start = RecvModel { start: base, packets: Map::empty() };
            let (model, delivered) = spec_run(start, events);
            spec_holds_received(model, events, base, n, delivered.len() as int)
        }),
    decreases events.len(),
{
    let start = RecvModel { start: base, packets: Map::empty() };
    if events.len() > 0 {
        let rest = events.drop_last();
        assert(spec_within(rest, base, n)) by {
            assert forall|i: int| 0 <= i < rest.len() implies match #[trigger] rest[i] {
                RecvEvent::Packet { number, .. } => number.wrapping_sub(base) < n,
                RecvEvent::Poll => true,
            } by {
                assert(rest[i] == events[i]);
            }
        }
        lemma_received_is_held(base, rest, n);
        let (before, delivered) = spec_run(start, rest);
        let count = delivered.len() as int;
        let event = events.last();
        assert(event == events[events.len() - 1]);
        let (after, piece) = spec_step(before, event);
        let (model, all) = spec_run(start, events);
        assert forall|k: u32| spec_received(rest, k) implies spec_received(events, k) by {
            let i = choose|i: int| 0 <= i < rest.len() && spec_is_packet(#[trigger] rest[i], k);
            assert(events[i] == rest[i]);
        }
        match event {
            RecvEvent::Packet { number, data } => {
                assert(spec_received(events, number));
                assert forall|k: u32| #[trigger]
                    model.packets.contains_key(k) <==> (count <= k.wrapping_sub(base) < n
                        && spec_received(events, k)) by {
                    if k != number && spec_received(events, k) {
                        let i = choose|i: int|
                            0 <= i < events.len() && spec_is_packet(#[trigger] events[i], k);
                        assert(rest[i] == events[i]);
                        assert(spec_received(rest, k));
                    }
                }
            },
            RecvEvent::Poll => {
                assert forall|k: u32| #[trigger]
                    model.packets.contains_key(k) <==> (all.len() <= k.wrapping_sub(base) < n
                        && spec_received(events, k)) by {
                    if spec_received(events, k) {
                        let i = choose|i: int|
                            0 <= i < events.len() && spec_is_packet(#[trigger] events[i], k);
                        assert(rest[i] == events[i]);
                        assert(spec_received(rest, k));
                    }
                }
            },
        }
    }
}

/// Where the receiving end holds every one of the `n` pieces from `base`
/// on that the application has not got yet, the application gets them all,
/// one for each time that it asks, in the order of their numbers.
pub proof fn lemma_polls_deliver(
    model: RecvModel,
    base: u32,
    n: int,
    count: int,
    polls: nat,
    sent: spec_fn(u32) -> Seq<u8>,
)
    requires
        0 <= count <= n <= 65536,
        count + polls <= n,
        model.start == spec_number(base, count),
        forall|k: u32| #[trigger]
            model.packets.contains_key(k) <==> count <= k.wrapping_sub(base) < n,
        forall|k: u32| #[trigger] model.packets.contains_key(k) ==> model.packets[k] == sent(k),
    ensures
        ({
            let (after, delivered) = spec_run(model, spec_polls(polls));
            &&& delivered.len() == polls
            &&& forall|j: int|
                0 <= j < polls ==> #[trigger] delivered[j] == sent(spec_number(base, count + j))
            &&& after.start == spec_number(base, count + polls)
            &&& forall|k: u32| #[trigger]
                after.packets.contains_key(k) <==> count + polls <= k.wrapping_sub(base) < n
            &&& forall|k: u32| #[trigger]
                after.packets.contains_key(k) ==> after.packets[k] == sent(k)
        }),
    decreases polls,
{
    if polls > 0 {
        let fewer = (polls - 1) as nat;
        assert(spec_polls(polls).drop_last() =~= spec_polls(fewer));
        assert(spec_polls(polls).last() == RecvEvent::Poll);
        lemma_polls_deliver(model, base, n, count, fewer, sent);
        let (before, delivered) = spec_run(model, spec_polls(fewer));
        assert(before.packets.contains_key(before.start)) by {
            assert(before.start.wrapping_sub(base) == count + fewer);
        }
    }
}

/// Once every one of `n` pieces of data in a row has come in, no more than
/// 65536, in whatever order and however often, the application gets them
/// all, and nothing else, by asking `n` times: with what it got while the
/// packets came in, it has got the `n` pieces that the sender gave the
/// numbers from `base` on, in the order of the numbers.
pub proof fn lemma_delivery_is_complete(
    base: u32,
    events: Seq<RecvEvent>,
    n: int,
    sent: spec_fn(u32) -> Seq<u8>,
)
    requires
        0 <= n <= 65536,
        spec_carry(events, sent),
        spec_within(events, base, n),
        forall|j: int| 0 <= j < n ==> spec_received(events, #[trigger] spec_number(base, j)),
    ensures
        ({
            let start = RecvModel { start: base, packets: Map::empty() };
            let (model, delivered) = spec_run(start, events);
            let (after, more) = spec_run(model, spec_polls((n - delivered.len()) as nat));
            &&& delivered.len() <= n
            &&& delivered + more == Seq::new(n as nat, |j: int| sent(spec_number(base, j)))
            &&& after.packets == Map::<u32, Seq<u8>>::empty()
        }),
{
    let start = RecvModel { start: base, packets: Map::empty() };
    lemma_delivery_in_order(base, events, sent);
    lemma_received_is_held(base, events, n);
    let (model, delivered) = spec_run(start, events);
    let count = delivered.len() as int;
    let polls = (n - count) as nat;
    assert forall|k: u32| #[trigger]
        model.packets.contains_key(k) <==> count <= k.wrapping_sub(base) < n by {
        let j = k.wrapping_sub(base) as int;
        if count <= j < n {
            assert(spec_number(base, j) == k);
        }
    }
    lemma_polls_deliver(model, base, n, count, polls, sent);
    let (after, more) = spec_run(model, spec_polls(polls));
    assert(delivered + more =~= Seq::new(n as nat, |j: int| sent(spec_number(base, j)))) by {
        assert forall|j: int| 0 <= j < n implies (delivered + more)[j] == sent(
            spec_number(base, j),
        ) by {
            if j >= count {
                assert(more[j - count] == sent(spec_number(base, count + (j - count))));
            }
        }
    }
    assert(after.packets =~= Map::<u32, Seq<u8>>::empty());
}

} // verus!
