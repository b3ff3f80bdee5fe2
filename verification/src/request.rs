//! The frame by which a receiver asks for the packets that it misses.
//!
//! A request travels in the place of data. Its first byte is the reserved
//! byte zero. The bytes behind it walk through the sequence numbers of the
//! sender's window, from its start on: a byte `b` other than zero says that
//! the packet `b` places on is missing, a zero byte says that the next 255
//! packets are all there.

use vstd::prelude::*;
use crate::crypto_data::MAX_CRYPTO_DATA_SIZE;
use crate::packets_array::{PacketsArray, PACKETS_ARRAY_SIZE};

verus! {

/// The first byte of a request. Data of the application never starts with it.
pub const REQUEST_TAG: u8 = 0;

/// Whether the application may send `data`: it is not empty, it does not
/// start with the byte that marks a request, and it fits into one packet.
pub open spec fn spec_is_valid_data(data: Seq<u8>) -> bool {
    0 < data.len() <= MAX_CRYPTO_DATA_SIZE && data[0] != REQUEST_TAG
}

/// How many places of the window the bytes `body` of a request walk through.
pub open spec fn spec_request_end(body: Seq<u8>) -> int
    decreases body.len(),
{
    if body.len() == 0 {
        0
    } else if body.last() == 0 {
        spec_request_end(body.drop_last()) + 255
    } else {
        spec_request_end(body.drop_last()) + body.last()
    }
}

/// The places of the window, counted from its start, that the bytes `body`
/// of a request name as missing.
pub open spec fn spec_requested(body: Seq<u8>) -> Set<int>
    decreases body.len(),
{
    if body.len() == 0 {
        Set::empty()
    } else if body.last() == 0 {
        spec_requested(body.drop_last())
    } else {
        spec_requested(body.drop_last()).insert(
            spec_request_end(body.drop_last()) + body.last() - 1,
        )
    }
}

/// A request names only places that it has walked through.
pub proof fn lemma_requested_below_end(body: Seq<u8>)
    ensures
        0 <= spec_request_end(body),
        forall|o: int| spec_requested(body).contains(o) ==> 0 <= o < spec_request_end(body),
    decreases body.len(),
{
    if body.len() > 0 {
        let rest = body.drop_last();
        lemma_requested_below_end(rest);
        assert forall|o: int| spec_requested(body).contains(o) implies 0 <= o < spec_request_end(
            body,
        ) by {
            if body.last() == 0 || o != spec_request_end(rest) + body.last() - 1 {
                assert(spec_requested(rest).contains(o));
            }
        }
    }
}

/// The places below 65536 that the bytes `body` of a request name as
/// missing, in rising order.
pub fn request_offsets(body: &[u8]) -> (offsets: Vec<u32>)
    ensures
        forall|o: int|
            0 <= o < 65536 ==> (spec_requested(body@).contains(o) <==> offsets@.contains(
                o as u32,
            )),
        forall|i: int| 0 <= i < offsets@.len() ==> (#[trigger] offsets@[i]) < 65536,
        forall|i: int, j: int| 0 <= i < j < offsets@.len() ==> offsets@[i] < offsets@[j],
{
    let mut offsets: Vec<u32> = Vec::new();
    let len = body.len();
    let mut at: u32 = 0;
    let mut k: usize = 0;
    proof {
        assert(body@.subrange(0, 0) =~= Seq::<u8>::empty());
    }
    while k < len
        invariant
            k <= len,
            len == body@.len(),
            at <= 65536,
            at == if spec_request_end(body@.subrange(0, k as int)) < 65536 {
                spec_request_end(body@.subrange(0, k as int))
            } else {
                65536
            },
            forall|o: int|
                0 <= o < 65536 ==> (spec_requested(body@.subrange(0, k as int)).contains(o)
                    <==> offsets@.contains(o as u32)),
            forall|i: int| 0 <= i < offsets@.len() ==> (#[trigger] offsets@[i]) < at,
            forall|i: int, j: int| 0 <= i < j < offsets@.len() ==> offsets@[i] < offsets@[j],
        decreases len - k,
    {
        let b = body[k];
        let ghost before = offsets@;
        let ghost prefix = body@.subrange(0, k as int);
        let ghost next = body@.subrange(0, k + 1);
        proof {
            assert(next.drop_last() =~= prefix);
            assert(next.last() == b);
            lemma_requested_below_end(prefix);
        }
        let step: u32 = if b == 0 { 255 } else { b as u32 };
        if b != 0 && at + step - 1 < PACKETS_ARRAY_SIZE {
            let o: u32 = at + step - 1;
            offsets.push(o);
            proof {
                assert(offsets@[before.len() as int] == o);
                assert forall|p: int| 0 <= p < 65536 implies (spec_requested(next).contains(p)
                    <==> offsets@.contains(p as u32)) by {
                    if p != o {
                        assert(spec_requested(next).contains(p) == spec_requested(
                            prefix,
                        ).contains(p));
                    }
                    if offsets@.contains(p as u32) {
                        let i = choose|i: int| 0 <= i < offsets@.len() && offsets@[i] == p as u32;
                        if i < before.len() {
                            assert(before[i] == p as u32);
                            assert(before.contains(p as u32));
                        }
                    }
                    if spec_requested(prefix).contains(p) {
                        assert(before.contains(p as u32));
                        let i = choose|i: int| 0 <= i < before.len() && before[i] == p as u32;
                        assert(offsets@[i] == p as u32);
                    }
                }
            }
        } else {
            proof {
                assert forall|p: int| 0 <= p < 65536 implies (spec_requested(next).contains(p)
                    <==> offsets@.contains(p as u32)) by {
                    if b == 0 || p != spec_request_end(prefix) + b - 1 {
                        assert(spec_requested(next).contains(p) == spec_requested(
                            prefix,
                        ).contains(p));
                    }
                }
            }
        }
        at = if at + step < PACKETS_ARRAY_SIZE { at + step } else { PACKETS_ARRAY_SIZE };
        k += 1;
    }
    proof {
        assert(body@.subrange(0, len as int) =~= body@);
    }
    offsets
}

/// Whether the request `frame` names no packet that `array` holds and none
/// outside its window.
pub open spec fn spec_request_is_sound<T>(array: &PacketsArray<T>, frame: Seq<u8>) -> bool {
    forall|o: int| #[trigger]
        spec_requested(frame.subrange(1, frame.len() as int)).contains(o) ==> 0 <= o
            < array.spec_len() && !array@.contains_key(array.buffer_start.wrapping_add(o as u32))
}

/// Whether the request `frame` names every packet that `array` misses in
/// its window.
pub open spec fn spec_request_is_complete<T>(array: &PacketsArray<T>, frame: Seq<u8>) -> bool {
    forall|o: int|
        0 <= o < array.spec_len() && !array@.contains_key(
            array.buffer_start.wrapping_add(o as u32),
        ) ==> #[trigger] spec_requested(frame.subrange(1, frame.len() as int)).contains(o)
}

/// The request for the packets that `array` misses in its window, and
/// whether it names any.
///
/// The request names no packet that the array holds and none outside its
/// window. It names every packet that the window misses, unless there are
/// more of them than one frame can name.
pub fn generate_request<T>(array: &PacketsArray<T>) -> (res: (Vec<u8>, bool))
    requires
        array.wf(),
    ensures
        ({
            let frame = res.0;
            &&& 1 <= frame@.len() <= MAX_CRYPTO_DATA_SIZE
            &&& frame@[0] == REQUEST_TAG
            &&& spec_request_is_sound(array, frame@)
            &&& frame@.len() < MAX_CRYPTO_DATA_SIZE ==> spec_request_is_complete(array, frame@)
            &&& res.1 == exists|o: int| #[trigger]
                spec_requested(frame@.subrange(1, frame@.len() as int)).contains(o)
            &&& !res.1 ==> frame@.len() < MAX_CRYPTO_DATA_SIZE
        }),
{
    let mut frame: Vec<u8> = Vec::new();
    frame.push(REQUEST_TAG);
    let len = array.len();
    let mut n: u8 = 1;
    let mut k: u32 = 0;
    let mut found = false;
    proof {
        assert(frame@.subrange(1, 1) =~= Seq::<u8>::empty());
        array.lemma_occupied_bound();
    }
    while k < len && frame.len() < MAX_CRYPTO_DATA_SIZE
        invariant
            k <= len,
            len == array.spec_len(),
            array.wf(),
            1 <= n,
            1 <= frame@.len() <= MAX_CRYPTO_DATA_SIZE,
            frame@[0] == REQUEST_TAG,
            spec_request_end(frame@.subrange(1, frame@.len() as int)) + n - 1 == k,
            forall|o: int|
                0 <= o < k ==> (#[trigger] spec_requested(
                    frame@.subrange(1, frame@.len() as int),
                ).contains(o) <==> !array@.contains_key(array.buffer_start.wrapping_add(o as u32))),
            forall|o: int| #[trigger]
                spec_requested(frame@.subrange(1, frame@.len() as int)).contains(o) ==> 0 <= o
                    < k,
            found == exists|o: int| #[trigger]
                spec_requested(frame@.subrange(1, frame@.len() as int)).contains(o),
            !found ==> spec_request_end(frame@.subrange(1, frame@.len() as int)) == 255 * (
            frame@.len() - 1),
            len <= 65536,
        decreases len - k,
    {
        let seq = array.buffer_start.wrapping_add(k);
        let ghost body = frame@.subrange(1, frame@.len() as int);
        if !array.contains(seq) {
            frame.push(n);
            n = 0;
            found = true;
        } else if n == 255 {
            frame.push(0);
            n = 0;
        }
        proof {
            let after = frame@.subrange(1, frame@.len() as int);
            let start = array.buffer_start;
            if after.len() > body.len() {
                assert(after.drop_last() =~= body);
            } else {
                assert(after =~= body);
            }
            assert forall|o: int| #[trigger] spec_requested(after).contains(o) implies 0 <= o < k
                + 1 by {
                if o != k {
                    assert(spec_requested(body).contains(o));
                }
            }
            assert forall|o: int| 0 <= o < k + 1 implies (#[trigger] spec_requested(
                after,
            ).contains(o) <==> !array@.contains_key(start.wrapping_add(o as u32))) by {
                if o < k {
                    assert(spec_requested(after).contains(o) == spec_requested(body).contains(o));
                } else {
                    if array@.contains_key(seq) && spec_requested(body).contains(o) {
                        assert(false);
                    }
                }
            }
            if !array@.contains_key(seq) {
                assert(spec_requested(after).contains(k as int));
            } else {
                if exists|o: int| #[trigger] spec_requested(body).contains(o) {
                    let o = choose|o: int| #[trigger] spec_requested(body).contains(o);
                    assert(spec_requested(after).contains(o));
                }
                if exists|o: int| #[trigger] spec_requested(after).contains(o) {
                    let o = choose|o: int| #[trigger] spec_requested(after).contains(o);
                    assert(spec_requested(body).contains(o));
                }
            }
        }
        n += 1;
        k += 1;
    }
    (frame, found)
}

} // verus!
