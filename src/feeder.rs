//! Filling a device buffer from the mixed stream.
//!
//! Each slot of the buffer takes the sample that was pulled for it from the
//! mixed stream, already in the buffer's encoding. Where the stream had no
//! sample for a slot, the slot gets the encoding's silence: an underrun is
//! never an error.

use vstd::prelude::*;

verus! {

/// Silence in the unsigned 16-bit encoding, where 32768 stands for zero.
pub const U16_SILENCE: u16 = 32768;

/// Silence in the signed 16-bit encoding.
pub const I16_SILENCE: i16 = 0;

/// What slot `i` holds after a fill: its pulled sample, or `silence` where
/// none was pulled for it.
pub open spec fn slot_value<T>(pulled: Seq<Option<T>>, i: int, silence: T) -> T {
    if 0 <= i < pulled.len() {
        match pulled[i] {
            Some(x) => x,
            None => silence,
        }
    } else {
        silence
    }
}

/// Writes into every slot of `buffer` the sample pulled for it, or
/// `silence` where the mixed stream had none; `pulled` may be shorter than
/// the buffer. Returns how many slots got a sample.
pub fn fill_slots<T: Copy>(buffer: &mut [T], pulled: &[Option<T>], silence: T) -> (r: usize)
    ensures
        final(buffer)@.len() == old(buffer)@.len(),
        forall|i: int|
            0 <= i < final(buffer)@.len() ==> #[trigger] final(buffer)@[i] == slot_value(
                pulled@,
                i,
                silence,
            ),
        r == filled_count(pulled@, old(buffer)@.len() as int),
        r <= old(buffer)@.len(),
{
    let n = buffer.len();
    let mut filled: usize = 0;
    let mut i: usize = 0;
    while i < n
        invariant
            n == old(buffer)@.len(),
            buffer@.len() == n,
            i <= n,
            filled <= i,
            filled == filled_count(pulled@, i as int),
            forall|j: int| 0 <= j < i ==> #[trigger] buffer@[j] == slot_value(pulled@, j, silence),
        decreases n - i,
    {
        let mut v = silence;
        if i < pulled.len() {
            match pulled[i] {
                Some(x) => {
                    v = x;
                    filled = filled + 1;
                },
                None => {},
            }
        }
        buffer[i] = v;
        i = i + 1;
    }
    filled
}

/// How many of the first `n` slots have a pulled sample.
pub open spec fn filled_count<T>(pulled: Seq<Option<T>>, n: int) -> nat
    decreases n,
{
    if n <= 0 {
        0
    } else {
        filled_count(pulled, n - 1) + if n - 1 < pulled.len() && pulled[n - 1] is Some {
            1nat
        } else {
            0nat
        }
    }
}

/// Fills an unsigned 16-bit device buffer; slots without a sample are silent.
pub fn fill_u16(buffer: &mut [u16], pulled: &[Option<u16>]) -> (r: usize)
    ensures
        final(buffer)@.len() == old(buffer)@.len(),
        forall|i: int|
            0 <= i < final(buffer)@.len() ==> #[trigger] final(buffer)@[i] == slot_value(
                pulled@,
                i,
                U16_SILENCE,
            ),
        r == filled_count(pulled@, old(buffer)@.len() as int),
{
    fill_slots(buffer, pulled, U16_SILENCE)
}

/// Fills a signed 16-bit device buffer; slots without a sample are silent.
pub fn fill_i16(buffer: &mut [i16], pulled: &[Option<i16>]) -> (r: usize)
    ensures
        final(buffer)@.len() == old(buffer)@.len(),
        forall|i: int|
            0 <= i < final(buffer)@.len() ==> #[trigger] final(buffer)@[i] == slot_value(
                pulled@,
                i,
                I16_SILENCE,
            ),
        r == filled_count(pulled@, old(buffer)@.len() as int),
{
    fill_slots(buffer, pulled, I16_SILENCE)
}

/// A fill of `n` slots from a stream that had fewer than `n` samples leaves
/// every slot past the last pulled one at `silence`, and gives no slot more
/// samples than were pulled.
pub proof fn lemma_underrun_is_silent<T>(pulled: Seq<Option<T>>, n: int, silence: T)
    requires
        pulled.len() < n,
    ensures
        forall|i: int| pulled.len() <= i < n ==> #[trigger] slot_value(pulled, i, silence) == silence,
        filled_count(pulled, n) <= pulled.len(),
{
    lemma_filled_count_bound(pulled, n);
}

proof fn lemma_filled_count_bound<T>(pulled: Seq<Option<T>>, n: int)
    ensures
        filled_count(pulled, n) <= if n < 0 { 0 } else if n < pulled.len() { n } else { pulled.len() as int },
    decreases n,
{
    if n > 0 {
        lemma_filled_count_bound(pulled, n - 1);
    }
}

} // verus!
