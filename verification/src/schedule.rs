//! What the engine does when the timer drives it.

use vstd::prelude::*;
use crate::crypto_connection::Endpoint;
use crate::error::Error;
use crate::net_crypto::{Entry, Failure, NetCrypto, Ticked};
use crate::time::Instant;
use crate::timer::ConnectionTick;
use crate::transport::{spec_wires, Outgoing};

verus! {

/// The entries of `entries`, in their order, whose connections have not
/// timed out at `now`.
pub open spec fn spec_survivors(entries: Seq<Entry>, now: Instant) -> Seq<Entry>
    decreases entries.len(),
{
    if entries.len() == 0 {
        Seq::empty()
    } else if entries.last().connection.spec_is_timed_out(now) {
        spec_survivors(entries.drop_last(), now)
    } else {
        spec_survivors(entries.drop_last(), now).push(entries.last())
    }
}

/// The failures of the entries of `entries`, in their order, whose
/// connections have timed out at `now`.
pub open spec fn spec_timed_out(entries: Seq<Entry>, now: Instant) -> Seq<Failure>
    decreases entries.len(),
{
    if entries.len() == 0 {
        Seq::empty()
    } else if entries.last().connection.spec_is_timed_out(now) {
        spec_timed_out(entries.drop_last(), now).push(
            Failure { handle: entries.last().handle, error: Error::Timeout },
        )
    } else {
        spec_timed_out(entries.drop_last(), now)
    }
}

/// Whether the entries `after` are the entries `before` after the timer
/// drove each of them at `now` and they sent `ticks`, one for one.
pub open spec fn is_ticked_all(
    before: Seq<Entry>,
    after: Seq<Entry>,
    ticks: Seq<ConnectionTick>,
    now: Instant,
) -> bool {
    &&& after.len() == before.len()
    &&& ticks.len() == before.len()
    &&& forall|j: int|
        0 <= j < after.len() ==> (#[trigger] after[j]).handle == before[j].handle
            && after[j].connection.is_ticked_after(&before[j].connection, now, ticks[j])
}

/// What goes out at `now` for the entries `after` that sent `ticks`, one
/// for one: what goes out for the first, then for the second, and so on.
pub open spec fn spec_all_wires(after: Seq<Entry>, ticks: Seq<ConnectionTick>, now: Instant) -> Seq<
    (Endpoint, Seq<u8>),
>
    decreases after.len(),
{
    if after.len() == 0 || ticks.len() == 0 {
        Seq::empty()
    } else {
        spec_all_wires(after.drop_last(), ticks.drop_last(), now) + ticks.last().spec_wires(
            &after.last().connection,
            now,
        )
    }
}

impl NetCrypto {
    /// Drives every connection at `now`.
    ///
    /// A connection whose handshake got no answer in time is closed, and its
    /// handle is given out with the error `Timeout` so that the application
    /// learns of the failure.
    /// Every other connection gives out what is due to be sent: the packet
    /// of its handshake, data packets that go out again, a request for
    /// missing pieces of data, a sign of life. Each packet is given out with
    /// every way that it takes.
    pub fn tick(&mut self, now: Instant) -> (ticked: Ticked)
        requires
            old(self).wf(),
        ensures
            final(self).wf(),
            *final(self) == (NetCrypto { entries: final(self).entries, ..*old(self) }),
            ticked.failed@ == spec_timed_out(old(self).entries@, now),
            exists|ticks: Seq<ConnectionTick>|
                {
                    &&& #[trigger] is_ticked_all(
                        spec_survivors(old(self).entries@, now),
                        final(self).entries@,
                        ticks,
                        now,
                    )
                    &&& spec_wires(ticked.outgoing@) == spec_all_wires(
                        final(self).entries@,
                        ticks,
                        now,
                    )
                },
    {
        let mut outgoing: Vec<Outgoing> = Vec::new();
        let mut failed: Vec<Failure> = Vec::new();
        let n = self.entries.len();
        let mut i: usize = 0;
        let mut k: usize = 0;
        let ghost mut ticks: Seq<ConnectionTick> = Seq::empty();
        let ghost mut origin: Seq<int> = Seq::empty();
        proof {
            assert(old(self).entries@.subrange(0, 0) =~= Seq::<Entry>::empty());
            assert(self.entries@.subrange(0, 0) =~= Seq::<Entry>::empty());
            assert(self.entries@.subrange(0, n as int) =~= old(self).entries@.subrange(0, n as int));
            assert(spec_wires(outgoing@) =~= Seq::<(Endpoint, Seq<u8>)>::empty());
        }
        while k < n
            invariant
                i <= k <= n,
                n == old(self).entries@.len(),
                old(self).wf(),
                *self == (NetCrypto { entries: self.entries, ..*old(self) }),
                self.entries@.len() == n - (k - i),
                self.entries@.subrange(i as int, self.entries@.len() as int) == old(
                    self,
                ).entries@.subrange(k as int, n as int),
                is_ticked_all(
                    spec_survivors(old(self).entries@.subrange(0, k as int), now),
                    self.entries@.subrange(0, i as int),
                    ticks,
                    now,
                ),
                spec_wires(outgoing@) == spec_all_wires(
                    self.entries@.subrange(0, i as int),
                    ticks,
                    now,
                ),
                failed@ == spec_timed_out(old(self).entries@.subrange(0, k as int), now),
                origin.len() == i,
                forall|j: int|
                    0 <= j < i ==> 0 <= #[trigger] origin[j] < k && self.entries@[j].handle == old(
                        self,
                    ).entries@[origin[j]].handle && self.entries@[j].connection.peer_real_pk
                        == old(self).entries@[origin[j]].connection.peer_real_pk
                        && self.entries@[j].connection.wf(),
                forall|j: int, l: int| 0 <= j < l < i ==> origin[j] < origin[l],
            decreases n - k,
        {
            let ghost before_entries = self.entries@;
            let ghost prefix = old(self).entries@.subrange(0, k as int);
            let ghost next = old(self).entries@.subrange(0, k + 1);
            let ghost done = self.entries@.subrange(0, i as int);
            proof {
                assert(next.drop_last() =~= prefix);
                assert(next.last() == old(self).entries@[k as int]);
                assert(self.entries@[i as int] == self.entries@.subrange(
                    i as int,
                    self.entries@.len() as int,
                )[0]);
                assert(self.entries@[i as int] == old(self).entries@[k as int]);
            }
            if self.entries[i].connection.is_timed_out(now) {
                failed.push(Failure { handle: self.entries[i].handle, error: Error::Timeout });
                self.entries.remove(i);
                proof {
                    assert(self.entries@.subrange(0, i as int) =~= done);
                    let rest = self.entries@.subrange(i as int, self.entries@.len() as int);
                    let old_rest = old(self).entries@.subrange(k + 1, n as int);
                    assert forall|j: int| 0 <= j < rest.len() implies #[trigger] rest[j]
                        == old_rest[j] by {
                        assert(before_entries.subrange(
                            i as int,
                            before_entries.len() as int,
                        )[j + 1] == old(self).entries@.subrange(k as int, n as int)[j + 1]);
                    }
                    assert(rest =~= old_rest);
                    assert forall|j: int| 0 <= j < i implies 0 <= #[trigger] origin[j] < k + 1
                        && self.entries@[j].handle == old(self).entries@[origin[j]].handle
                        && self.entries@[j].connection.peer_real_pk == old(
                        self,
                    ).entries@[origin[j]].connection.peer_real_pk
                        && self.entries@[j].connection.wf() by {
                        assert(self.entries@[j] == before_entries[j]);
                    }
                }
            } else {
                let tick = self.entries[i].connection.tick(now);
                tick.address(&self.entries[i].connection, now, &mut outgoing);
                proof {
                    let ticked_connection = self.entries@[i as int].connection;
                    ticked_connection.lemma_ticked_keeps_peer(
                        &old(self).entries@[k as int].connection,
                        now,
                        tick,
                    );
                    let after = self.entries@.subrange(0, i + 1);
                    let new_ticks = ticks.push(tick);
                    assert(after.drop_last() =~= done);
                    assert(new_ticks.drop_last() =~= ticks);
                    assert(after.last() == self.entries@[i as int]);
                    let rest = self.entries@.subrange(i + 1, self.entries@.len() as int);
                    let old_rest = old(self).entries@.subrange(k + 1, n as int);
                    assert forall|j: int| 0 <= j < rest.len() implies #[trigger] rest[j]
                        == old_rest[j] by {
                        assert(before_entries.subrange(
                            i as int,
                            before_entries.len() as int,
                        )[j + 1] == old(self).entries@.subrange(k as int, n as int)[j + 1]);
                    }
                    assert(rest =~= old_rest);
                    let survivors = spec_survivors(next, now);
                    assert(survivors == spec_survivors(prefix, now).push(
                        old(self).entries@[k as int],
                    ));
                    assert forall|j: int| 0 <= j < after.len() implies (#[trigger] after[j]).handle
                        == survivors[j].handle && after[j].connection.is_ticked_after(
                        &survivors[j].connection,
                        now,
                        new_ticks[j],
                    ) by {
                        if j < i {
                            assert(after[j] == done[j]);
                        }
                    }
                    ticks = new_ticks;
                    let new_origin = origin.push(k as int);
                    assert forall|j: int| 0 <= j < i + 1 implies 0 <= #[trigger] new_origin[j] < k
                        + 1 && self.entries@[j].handle == old(
                        self,
                    ).entries@[new_origin[j]].handle && self.entries@[j].connection.peer_real_pk
                        == old(self).entries@[new_origin[j]].connection.peer_real_pk
                        && self.entries@[j].connection.wf() by {
                        if j < i {
                            assert(self.entries@[j] == before_entries[j]);
                            assert(new_origin[j] == origin[j]);
                        }
                    }
                    assert forall|j: int, l: int| 0 <= j < l < i + 1 implies new_origin[j]
                        < new_origin[l] by {
                        if l < i {
                            assert(new_origin[l] == origin[l]);
                        }
                        assert(new_origin[j] == origin[j]);
                    }
                    origin = new_origin;
                }
                i += 1;
            }
            k += 1;
        }
        proof {
            assert(old(self).entries@.subrange(0, n as int) =~= old(self).entries@);
            assert(self.entries@.subrange(0, i as int) =~= self.entries@);
            assert forall|j: int, l: int| 0 <= j < l < self.entries@.len() implies (
            #[trigger] self.entries@[j]).handle != (#[trigger] self.entries@[l]).handle
                && self.entries@[j].connection.peer_real_pk
                != self.entries@[l].connection.peer_real_pk by {
                assert(origin[j] < origin[l]);
                assert(old(self).entries@[origin[j]].handle != old(self).entries@[origin[l]].handle);
            }
            assert forall|j: int| 0 <= j < self.entries@.len() implies (
            #[trigger] self.entries@[j]).connection.wf() && self.entries@[j].handle
                < self.next_handle by {
                assert(0 <= origin[j] < n);
                assert(old(self).entries@[origin[j]].handle < old(self).next_handle);
            }
        }
        Ticked { outgoing, failed }
    }
}

} // verus!
