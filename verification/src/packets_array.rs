//! The ring of packets that a connection keeps for each direction.
//!
//! Packets are numbered by a 32-bit sequence number that wraps round. The
//! array holds those whose numbers lie in a window of at most 65536 numbers
//! that starts at `buffer_start` and ends before `buffer_end`. The packet
//! with number `n` lives in slot `n % 65536`.

use vstd::prelude::*;
use vstd::set_lib::*;
use crate::error::Error;

verus! {

/// Number of slots in a [`PacketsArray`].
pub const PACKETS_ARRAY_SIZE: u32 = 65536;

/// The slot that belongs to the sequence number `d` places behind `start`.
#[verifier::opaque]
pub open spec fn slot(start: u32, d: int) -> int {
    (start + d) % 65536
}

/// A slot is one of the 65536 places of the buffer.
pub proof fn lemma_slot_bounds(start: u32, d: int)
    requires
        0 <= d,
    ensures
        0 <= slot(start, d) < 65536,
{
    reveal(slot);
}

/// The slot of a sequence number can be counted from any start.
pub proof fn lemma_slot_seq(start: u32, seq: u32)
    ensures
        slot(seq, 0) == slot(start, seq.wrapping_sub(start) as int),
        slot(seq, 0) == seq % 65536,
{
    reveal(slot);
}

/// The slots of 65536 sequence numbers in a row are all different.
pub proof fn lemma_slot_injective(start: u32, d: int, e: int)
    requires
        0 <= d < 65536,
        0 <= e < 65536,
        slot(start, d) == slot(start, e),
    ensures
        d == e,
{
    reveal(slot);
}

/// Counting on from `seq` is counting on from `start`, and after 65536
/// places the slots come round again.
pub proof fn lemma_slot_shift(start: u32, seq: u32, e: int)
    requires
        0 <= e,
    ensures
        slot(seq, e) == slot(start, seq.wrapping_sub(start) + e),
        slot(start, e + 65536) == slot(start, e),
{
    reveal(slot);
}

/// Fixed-capacity buffer of packets, indexed by wrapping sequence numbers.
#[derive(Clone, Debug, PartialEq, Eq)]
pub struct PacketsArray<T> {
    /// One place for each sequence number of the window and beyond, 65536 in all.
    pub buffer: Vec<Option<T>>,
    /// The first sequence number of the window.
    pub buffer_start: u32,
    /// The sequence number behind the last one of the window.
    pub buffer_end: u32,
}

impl<T> View for PacketsArray<T> {
    type V = Map<u32, T>;

    /// The packets that the array holds, each under its sequence number.
    open spec fn view(&self) -> Map<u32, T> {
        Map::new(
            |seq: u32| self.in_window(seq) && self.buffer@[slot(seq, 0)] is Some,
            |seq: u32| self.buffer@[slot(seq, 0)]->0,
        )
    }
}

impl<T> PacketsArray<T> {
    /// The number of sequence numbers in the window.
    pub open spec fn spec_len(&self) -> int {
        self.buffer_end.wrapping_sub(self.buffer_start) as int
    }

    /// Whether `seq` lies in the window.
    pub open spec fn in_window(&self, seq: u32) -> bool {
        seq.wrapping_sub(self.buffer_start) < self.spec_len()
    }

    /// The array holds 65536 slots, its window is no longer than that, and
    /// every slot outside the window is empty.
    pub open spec fn wf(&self) -> bool {
        &&& self.buffer@.len() == 65536
        &&& self.spec_len() <= 65536
        &&& forall|d: int|
            self.spec_len() <= d < 65536 ==> (#[trigger] self.buffer@[slot(
                self.buffer_start,
                d,
            )]) is None
    }

    /// Whether the array is well formed.
    pub fn is_wf(&self) -> (ok: bool)
        ensures
            ok == self.wf(),
    {
        if self.buffer.len() != 65536 {
            return false;
        }
        let len = self.len();
        if len > PACKETS_ARRAY_SIZE {
            return false;
        }
        let mut d: u32 = len;
        while d < PACKETS_ARRAY_SIZE
            invariant
                len <= d <= PACKETS_ARRAY_SIZE,
                len == self.spec_len(),
                self.buffer@.len() == 65536,
                forall|e: int|
                    len <= e < d ==> (#[trigger] self.buffer@[slot(self.buffer_start, e)]) is None,
            decreases PACKETS_ARRAY_SIZE - d,
        {
            let seq = self.buffer_start.wrapping_add(d);
            proof {
                lemma_slot_seq(self.buffer_start, seq);
            }
            if self.buffer[(seq % PACKETS_ARRAY_SIZE) as usize].is_some() {
                return false;
            }
            d += 1;
        }
        true
    }

    /// The places of the window, counted from its start, that hold a packet.
    pub open spec fn occupied(&self) -> Set<int> {
        Set::new(
            |d: int|
                0 <= d < self.spec_len() && self.buffer@[slot(self.buffer_start, d)] is Some,
        )
    }

    /// An empty array whose window starts at sequence number 0.
    pub fn new() -> (array: PacketsArray<T>)
        ensures
            array.wf(),
            array.buffer_start == 0,
            array.buffer_end == 0,
            array@ == Map::<u32, T>::empty(),
    {
        let mut buffer: Vec<Option<T>> = Vec::new();
        let mut i: u32 = 0;
        while i < PACKETS_ARRAY_SIZE
            invariant
                i <= PACKETS_ARRAY_SIZE,
                buffer@.len() == i,
                forall|j: int| 0 <= j < i ==> (#[trigger] buffer@[j]) is None,
            decreases PACKETS_ARRAY_SIZE - i,
        {
            buffer.push(None);
            i += 1;
        }
        let array = PacketsArray { buffer, buffer_start: 0, buffer_end: 0 };
        proof {
            assert forall|d: int| 0 <= d < 65536 implies (#[trigger] array.buffer@[slot(0, d)])
                is None by {
                lemma_slot_bounds(0, d);
            }
            assert(array@ =~= Map::<u32, T>::empty());
        }
        array
    }

    /// The number of sequence numbers in the window.
    pub fn len(&self) -> (n: u32)
        ensures
            n == self.spec_len(),
    {
        self.buffer_end.wrapping_sub(self.buffer_start)
    }

    /// Whether the array holds a packet with the number `index`.
    pub fn contains(&self, index: u32) -> (held: bool)
        requires
            self.wf(),
        ensures
            held == self@.contains_key(index),
    {
        proof {
            lemma_slot_seq(self.buffer_start, index);
        }
        index.wrapping_sub(self.buffer_start) < self.len() && self.buffer[(index
            % PACKETS_ARRAY_SIZE) as usize].is_some()
    }

    /// The packet with the number `index`, if the array holds one.
    pub fn get(&self, index: u32) -> (packet: Option<&T>)
        requires
            self.wf(),
        ensures
            match packet {
                Some(p) => self@.contains_key(index) && self@[index] == *p,
                None => !self@.contains_key(index),
            },
    {
        proof {
            lemma_slot_seq(self.buffer_start, index);
        }
        if index.wrapping_sub(self.buffer_start) < self.len() {
            self.buffer[(index % PACKETS_ARRAY_SIZE) as usize].as_ref()
        } else {
            None
        }
    }

    /// Why no packet can be put into the slot of the number `index`, if none
    /// can: the number lies 65536 places or more behind the start of the
    /// window, or the slot is taken.
    pub open spec fn spec_insert_error(&self, index: u32) -> Option<Error> {
        if index.wrapping_sub(self.buffer_start) >= 65536 {
            Some(Error::OutOfRange)
        } else if self@.contains_key(index) {
            Some(Error::Duplicate)
        } else {
            None
        }
    }

    /// Puts `packet` into the slot of the number `index`.
    ///
    /// The number has to lie less than 65536 places behind the start of the
    /// window, and its slot has to be empty. The window grows to hold it.
    pub fn insert(&mut self, index: u32, packet: T) -> (res: Result<(), Error>)
        requires
            old(self).wf(),
        ensures
            final(self).wf(),
            match res {
                Ok(()) => {
                    &&& old(self).spec_insert_error(index) is None
                    &&& final(self)@ == old(self)@.insert(index, packet)
                    &&& final(self).buffer_start == old(self).buffer_start
                    &&& final(self).buffer_end == if old(self).in_window(index) {
                        old(self).buffer_end
                    } else {
                        index.wrapping_add(1)
                    }
                },
                Err(e) => *final(self) == *old(self) && old(self).spec_insert_error(index) == Some(
                    e,
                ),
            },
    {
        let d = index.wrapping_sub(self.buffer_start);
        if d >= PACKETS_ARRAY_SIZE {
            return Err(Error::OutOfRange);
        }
        let i = (index % PACKETS_ARRAY_SIZE) as usize;
        proof {
            lemma_slot_seq(self.buffer_start, index);
        }
        if self.buffer[i].is_some() {
            assert(self.in_window(index)) by {
                if d >= self.spec_len() {
                    assert(self.buffer@[slot(self.buffer_start, d as int)] is None);
                }
            }
            return Err(Error::Duplicate);
        }
        self.buffer[i] = Some(packet);
        if d >= self.len() {
            self.buffer_end = index.wrapping_add(1);
        }
        proof {
            let start = self.buffer_start;
            assert forall|e: int| self.spec_len() <= e < 65536 implies (#[trigger] self.buffer@[slot(
                start,
                e,
            )]) is None by {
                lemma_slot_bounds(start, e);
                if slot(start, e) == i {
                    lemma_slot_injective(start, d as int, e);
                }
                assert(old(self).buffer@[slot(start, e)] is None);
            }
            let grown = old(self)@.insert(index, packet);
            assert forall|seq: u32|
                #![trigger self@.contains_key(seq)]
                #![trigger grown.contains_key(seq)]
                self@.contains_key(seq) == grown.contains_key(seq) && (self@.contains_key(seq)
                    ==> self@[seq] == grown[seq]) by {
                let e = seq.wrapping_sub(start) as int;
                lemma_slot_seq(start, seq);
                if seq != index && e < 65536 {
                    lemma_slot_bounds(start, e);
                    if slot(start, e) == i {
                        lemma_slot_injective(start, d as int, e);
                    }
                    if e >= old(self).spec_len() {
                        assert(old(self).buffer@[slot(start, e)] is None);
                    }
                }
            }
            assert(self@ =~= grown);
        }
        Ok(())
    }

    /// Takes the packet with the number `index` out of the array.
    pub fn remove(&mut self, index: u32) -> (packet: Option<T>)
        requires
            old(self).wf(),
        ensures
            final(self).wf(),
            final(self).buffer_start == old(self).buffer_start,
            final(self).buffer_end == old(self).buffer_end,
            final(self)@ == old(self)@.remove(index),
            match packet {
                Some(p) => old(self)@.contains_key(index) && old(self)@[index] == p,
                None => !old(self)@.contains_key(index),
            },
    {
        proof {
            lemma_slot_seq(self.buffer_start, index);
        }
        let d = index.wrapping_sub(self.buffer_start);
        if d >= self.len() {
            assert(self@ =~= old(self)@.remove(index));
            return None;
        }
        let i = (index % PACKETS_ARRAY_SIZE) as usize;
        let packet = self.buffer[i].take();
        proof {
            let start = self.buffer_start;
            assert forall|e: int| self.spec_len() <= e < 65536 implies (#[trigger] self.buffer@[slot(
                start,
                e,
            )]) is None by {
                lemma_slot_bounds(start, e);
                assert(old(self).buffer@[slot(start, e)] is None);
            }
            let less = old(self)@.remove(index);
            assert forall|seq: u32|
                #![trigger self@.contains_key(seq)]
                #![trigger less.contains_key(seq)]
                self@.contains_key(seq) == less.contains_key(seq) && (self@.contains_key(seq)
                    ==> self@[seq] == less[seq]) by {
                let e = seq.wrapping_sub(start) as int;
                lemma_slot_seq(start, seq);
                if seq != index && e < 65536 {
                    lemma_slot_bounds(start, e);
                    if slot(start, e) == i {
                        lemma_slot_injective(start, d as int, e);
                    }
                }
            }
            assert(self@ =~= less);
        }
        packet
    }

    /// Takes the first packet of the window out of the array, with its
    /// number, and moves the start of the window behind it. Nothing happens
    /// where the first slot of the window is empty.
    pub fn pop_front(&mut self) -> (res: Option<(u32, T)>)
        requires
            old(self).wf(),
        ensures
            final(self).wf(),
            match res {
                Some((seq, packet)) => {
                    &&& seq == old(self).buffer_start
                    &&& old(self)@.contains_key(seq)
                    &&& old(self)@[seq] == packet
                    &&& final(self)@ == old(self)@.remove(seq)
                    &&& final(self).buffer_start == seq.wrapping_add(1)
                    &&& final(self).buffer_end == old(self).buffer_end
                },
                None => !old(self)@.contains_key(old(self).buffer_start) && *final(self) == *old(
                    self,
                ),
            },
    {
        let seq = self.buffer_start;
        proof {
            lemma_slot_seq(seq, seq);
        }
        if self.len() == 0 {
            return None;
        }
        let i = (seq % PACKETS_ARRAY_SIZE) as usize;
        if self.buffer[i].is_none() {
            return None;
        }
        let packet = self.buffer[i].take();
        self.buffer_start = seq.wrapping_add(1);
        proof {
            let next = self.buffer_start;
            assert forall|e: int| self.spec_len() <= e < 65536 implies (#[trigger] self.buffer@[slot(
                next,
                e,
            )]) is None by {
                lemma_slot_shift(seq, next, e);
                lemma_slot_bounds(seq, e + 1);
                if e < 65535 {
                    assert(old(self).buffer@[slot(seq, e + 1)] is None);
                } else {
                    lemma_slot_shift(seq, seq, 0);
                }
            }
            let less = old(self)@.remove(seq);
            assert forall|s: u32|
                #![trigger self@.contains_key(s)]
                #![trigger less.contains_key(s)]
                self@.contains_key(s) == less.contains_key(s) && (self@.contains_key(s)
                    ==> self@[s] == less[s]) by {
                let e = s.wrapping_sub(seq) as int;
                lemma_slot_seq(seq, s);
                if s != seq && e < 65536 {
                    lemma_slot_bounds(seq, e);
                    if slot(seq, e) == i {
                        lemma_slot_injective(seq, 0, e);
                    }
                }
            }
            assert(self@ =~= less);
        }
        Some((seq, packet.unwrap()))
    }

    /// Moves the start of the window to `seq` and drops the packets that lie
    /// before it. The end of the window moves along where it lay before `seq`.
    ///
    /// Fails where `seq` lies more than 65536 places behind the start.
    pub fn advance_start_to(&mut self, seq: u32) -> (res: Result<(), Error>)
        requires
            old(self).wf(),
        ensures
            final(self).wf(),
            match res {
                Ok(()) => {
                    &&& seq.wrapping_sub(old(self).buffer_start) <= 65536
                    &&& final(self).buffer_start == seq
                    &&& final(self).buffer_end == if seq.wrapping_sub(old(self).buffer_start)
                        > old(self).spec_len() {
                        seq
                    } else {
                        old(self).buffer_end
                    }
                    &&& final(self)@ == old(self)@.restrict(
                        Set::new(
                            |s: u32|
                                s.wrapping_sub(old(self).buffer_start) >= seq.wrapping_sub(
                                    old(self).buffer_start,
                                ),
                        ),
                    )
                    &&& forall|s: u32|
                        final(self)@.contains_key(s) ==> final(self).in_window(s)
                },
                Err(e) => {
                    &&& e == Error::OutOfRange
                    &&& seq.wrapping_sub(old(self).buffer_start) > 65536
                    &&& *final(self) == *old(self)
                },
            },
    {
        let d = seq.wrapping_sub(self.buffer_start);
        if d > PACKETS_ARRAY_SIZE {
            return Err(Error::OutOfRange);
        }
        let len = self.len();
        let stop = if d < len { d } else { len };
        let ghost start = self.buffer_start;
        let mut k: u32 = 0;
        while k < stop
            invariant
                k <= stop,
                stop <= 65536,
                start == old(self).buffer_start,
                self.buffer_start == old(self).buffer_start,
                self.buffer_end == old(self).buffer_end,
                self.buffer@.len() == 65536,
                forall|e: int| 0 <= e < k ==> (#[trigger] self.buffer@[slot(start, e)]) is None,
                forall|e: int|
                    k <= e < 65536 ==> (#[trigger] self.buffer@[slot(start, e)]) == old(
                        self,
                    ).buffer@[slot(start, e)],
            decreases stop - k,
        {
            let at = self.buffer_start.wrapping_add(k);
            let i = (at % PACKETS_ARRAY_SIZE) as usize;
            proof {
                lemma_slot_seq(start, at);
            }
            let ghost before = self.buffer@;
            self.buffer[i] = None;
            proof {
                assert forall|e: int| k + 1 <= e < 65536 implies (#[trigger] self.buffer@[slot(
                    start,
                    e,
                )]) == old(self).buffer@[slot(start, e)] by {
                    lemma_slot_bounds(start, e);
                    if slot(start, e) == i {
                        lemma_slot_injective(start, k as int, e);
                    }
                    assert(before[slot(start, e)] == old(self).buffer@[slot(start, e)]);
                }
                assert forall|e: int| 0 <= e < k + 1 implies (#[trigger] self.buffer@[slot(
                    start,
                    e,
                )]) is None by {
                    lemma_slot_bounds(start, e);
                    if e < k {
                        assert(before[slot(start, e)] is None);
                    }
                }
            }
            k += 1;
        }
        self.buffer_start = seq;
        if d > len {
            self.buffer_end = seq;
        }
        proof {
            assert forall|e: int| self.spec_len() <= e < 65536 implies (#[trigger] self.buffer@[slot(
                seq,
                e,
            )]) is None by {
                let f = if d + e >= 65536 {
                    d + e - 65536
                } else {
                    d + e
                };
                lemma_slot_shift(start, seq, e);
                lemma_slot_shift(start, seq, f);
                if f < stop {
                    assert(self.buffer@[slot(start, f)] is None);
                } else {
                    assert(self.buffer@[slot(start, f)] == old(self).buffer@[slot(start, f)]);
                    assert(old(self).buffer@[slot(start, f)] is None);
                }
            }
            let kept = old(self)@.restrict(
                Set::new(|s: u32| s.wrapping_sub(start) >= seq.wrapping_sub(start)),
            );
            assert forall|s: u32|
                #![trigger self@.contains_key(s)]
                #![trigger kept.contains_key(s)]
                self@.contains_key(s) == kept.contains_key(s) && (self@.contains_key(s)
                    ==> self@[s] == kept[s]) by {
                let f = s.wrapping_sub(start) as int;
                lemma_slot_seq(start, s);
                lemma_slot_seq(seq, s);
                if f < 65536 {
                    if f < stop {
                        assert(self.buffer@[slot(start, f)] is None);
                    } else {
                        assert(self.buffer@[slot(start, f)] == old(self).buffer@[slot(start, f)]);
                        if f >= len {
                            assert(old(self).buffer@[slot(start, f)] is None);
                        }
                    }
                }
            }
            assert(self@ =~= kept);
        }
        Ok(())
    }

    /// The numbers of the packets that the array holds, in the order of the window.
    pub fn sequence_numbers(&self) -> (numbers: Vec<u32>)
        requires
            self.wf(),
        ensures
            forall|seq: u32| self@.contains_key(seq) <==> numbers@.contains(seq),
            forall|i: int, j: int|
                0 <= i < j < numbers@.len() ==> numbers@[i].wrapping_sub(self.buffer_start)
                    < numbers@[j].wrapping_sub(self.buffer_start),
    {
        let mut numbers: Vec<u32> = Vec::new();
        let len = self.len();
        let mut k: u32 = 0;
        while k < len
            invariant
                k <= len,
                len == self.spec_len(),
                self.wf(),
                forall|seq: u32|
                    (self@.contains_key(seq) && seq.wrapping_sub(self.buffer_start) < k)
                        <==> numbers@.contains(seq),
                forall|i: int, j: int|
                    0 <= i < j < numbers@.len() ==> numbers@[i].wrapping_sub(self.buffer_start)
                        < numbers@[j].wrapping_sub(self.buffer_start),
                forall|i: int|
                    0 <= i < numbers@.len() ==> (#[trigger] numbers@[i]).wrapping_sub(
                        self.buffer_start,
                    ) < k,
            decreases len - k,
        {
            let seq = self.buffer_start.wrapping_add(k);
            let ghost before = numbers@;
            proof {
                lemma_slot_seq(self.buffer_start, seq);
            }
            if self.buffer[(seq % PACKETS_ARRAY_SIZE) as usize].is_some() {
                numbers.push(seq);
                proof {
                    assert(numbers@[before.len() as int] == seq);
                    assert forall|s: u32|
                        (self@.contains_key(s) && s.wrapping_sub(self.buffer_start) < k + 1)
                            <==> numbers@.contains(s) by {
                        if numbers@.contains(s) {
                            let i = choose|i: int| 0 <= i < numbers@.len() && numbers@[i] == s;
                            if i < before.len() {
                                assert(before[i] == s);
                                assert(before.contains(s));
                            }
                        }
                        if self@.contains_key(s) && s.wrapping_sub(self.buffer_start) < k {
                            assert(before.contains(s));
                            let i = choose|i: int| 0 <= i < before.len() && before[i] == s;
                            assert(numbers@[i] == s);
                        }
                    }
                }
            }
            k += 1;
        }
        numbers
    }

    /// The array never holds more packets than its window has numbers, and
    /// the window never has more than 65536.
    pub proof fn lemma_occupied_bound(&self)
        requires
            self.wf(),
        ensures
            self@.dom().finite(),
            self@.dom().len() <= self.spec_len() <= 65536,
            self.buffer_end == self.buffer_start.wrapping_add(self.spec_len() as u32),
    {
        let start = self.buffer_start;
        let places = self.occupied();
        let number = |d: int| start.wrapping_add(d as u32);
        lemma_int_range(0, self.spec_len());
        assert(places.subset_of(set_int_range(0, self.spec_len())));
        lemma_len_subset(places, set_int_range(0, self.spec_len()));
        assert forall|seq: u32| self@.dom().contains(seq) == places.map(number).contains(seq) by {
            let d = seq.wrapping_sub(start) as int;
            lemma_slot_seq(start, seq);
            if self@.dom().contains(seq) {
                assert(places.contains(d) && seq == number(d));
            }
            if places.map(number).contains(seq) {
                let e = choose|e: int| places.contains(e) && seq == number(e);
                assert(e == d);
            }
        }
        assert(self@.dom() =~= places.map(number));
        lemma_map_size_bound(places, self@.dom(), number);
    }
}

} // verus!
