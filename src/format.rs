//! Choosing the output format of a device from the formats it advertises.

use vstd::prelude::*;

verus! {

/// How a device buffer encodes one sample.
#[derive(Clone, Copy, Debug, PartialEq, Eq, Structural)]
pub enum SampleFormat {
    /// Unsigned 16-bit; silence is mid-scale.
    U16,
    /// Signed 16-bit; silence is zero.
    I16,
    /// 32-bit floating point in (-1.0, 1.0); silence is zero.
    F32,
}

/// One output format a device can be opened with.
#[derive(Clone, Copy, Debug, PartialEq, Eq, Structural)]
pub struct Format {
    pub channels: u16,
    pub sample_rate: u32,
    pub data_type: SampleFormat,
}

/// The lowest sample rate that is preferred over slower ones.
pub const MIN_PREFERRED_RATE: u32 = 44100;

/// How much a format is preferred. Float encoding counts most, then a
/// sample rate of at least `MIN_PREFERRED_RATE`, then exactly two channels;
/// each criterion outweighs all the ones after it together.
pub open spec fn rank(f: Format) -> int {
    (if f.data_type == SampleFormat::F32 { 4int } else { 0int }) + (if f.sample_rate
        >= MIN_PREFERRED_RATE {
        2int
    } else {
        0int
    }) + (if f.channels == 2 { 1int } else { 0int })
}

/// Whether two formats agree on all three criteria of the choice.
pub open spec fn same_criteria(a: Format, b: Format) -> bool {
    &&& (a.data_type == SampleFormat::F32) == (b.data_type == SampleFormat::F32)
    &&& (a.sample_rate >= MIN_PREFERRED_RATE) == (b.sample_rate >= MIN_PREFERRED_RATE)
    &&& (a.channels == 2) == (b.channels == 2)
}

/// Position `i` holds the chosen format of `formats`: none ranks higher,
/// and every format before it ranks lower, so that ties keep the first seen.
pub open spec fn is_choice(formats: Seq<Format>, i: int) -> bool {
    &&& 0 <= i < formats.len()
    &&& forall|j: int| 0 <= j < formats.len() ==> rank(#[trigger] formats[j]) <= rank(formats[i])
    &&& forall|j: int| 0 <= j < i ==> rank(#[trigger] formats[j]) < rank(formats[i])
}

/// The rank of a format, as a number.
pub fn format_rank(f: &Format) -> (r: u8)
    ensures
        r == rank(*f),
{
    let mut r: u8 = 0;
    if f.data_type == SampleFormat::F32 {
        r = r + 4;
    }
    if f.sample_rate >= MIN_PREFERRED_RATE {
        r = r + 2;
    }
    if f.channels == 2 {
        r = r + 1;
    }
    r
}

/// Whether `next` is preferred to `cur`: it ranks strictly higher.
pub fn takes_next(cur: &Format, next: &Format) -> (r: bool)
    ensures
        r == (rank(*next) > rank(*cur)),
{
    format_rank(next) > format_rank(cur)
}

/// The preferred one of two formats; `cur` where they rank the same.
pub fn prefer(cur: Format, next: Format) -> (r: Format)
    ensures
        r == (if rank(next) > rank(cur) { next } else { cur }),
{
    if takes_next(&cur, &next) {
        next
    } else {
        cur
    }
}

/// The position of the format to open a device with, among the formats it
/// advertises in the order it advertises them: the first of those that rank
/// highest. A device without formats cannot be opened.
pub fn choose_format_index(formats: &[Format]) -> (r: usize)
    requires
        formats@.len() > 0,
    ensures
        is_choice(formats@, r as int),
{
    let mut best: usize = 0;
    let mut i: usize = 1;
    while i < formats.len()
        invariant
            1 <= i <= formats@.len(),
            best < i,
            forall|j: int| 0 <= j < i ==> rank(#[trigger] formats@[j]) <= rank(formats@[best as int]),
            forall|j: int| 0 <= j < best ==> rank(#[trigger] formats@[j]) < rank(formats@[best as int]),
        decreases formats@.len() - i,
    {
        if takes_next(&formats[best], &formats[i]) {
            best = i;
        }
        i = i + 1;
    }
    best
}

/// Picks the output format from the formats a device advertises, in the
/// order it advertises them: the first of those that rank highest. A device
/// without formats cannot be opened.
pub fn choose_format(formats: &[Format]) -> (r: Format)
    requires
        formats@.len() > 0,
    ensures
        exists|i: int| is_choice(formats@, i) && formats@[i] == r,
{
    let i = choose_format_index(formats);
    formats[i]
}

/// Where a device offers a float format, the chosen format is float.
pub proof fn lemma_float_preferred(formats: Seq<Format>, i: int, k: int)
    requires
        is_choice(formats, i),
        0 <= k < formats.len(),
        formats[k].data_type == SampleFormat::F32,
    ensures
        formats[i].data_type == SampleFormat::F32,
{
    assert(rank(formats[k]) <= rank(formats[i]));
}

/// The order in which a device lists its formats decides only among formats
/// that tie on all three criteria: two lists with the same formats lead to
/// choices that agree on encoding class, rate class and stereo.
pub proof fn lemma_order_only_breaks_ties(a: Seq<Format>, i: int, b: Seq<Format>, j: int)
    requires
        forall|f: Format| a.contains(f) <==> b.contains(f),
        is_choice(a, i),
        is_choice(b, j),
    ensures
        rank(a[i]) == rank(b[j]),
        same_criteria(a[i], b[j]),
{
    assert(a.contains(a[i]));
    assert(b.contains(b[j]));
    let ka = choose|k: int| 0 <= k < b.len() && b[k] == a[i];
    let kb = choose|k: int| 0 <= k < a.len() && a[k] == b[j];
    assert(rank(b[ka]) <= rank(b[j]));
    assert(rank(a[kb]) <= rank(a[i]));
}

} // verus!
