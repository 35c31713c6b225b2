//! Descriptive statistics over encoded samples.
//!
//! Samples are 64-bit entry words, as in the matrix store: a caller
//! working with `f64` data passes each value's bit pattern, so that
//! equality of words is equality of encodings.  The mode — the set of
//! values that occur most often — is pure counting and is stated and
//! proved exactly here; averaging and the distribution tests belong to
//! the caller's scalar arithmetic.

use vstd::prelude::*;

verus! {

/// Marker for the descriptive-statistics surface.
pub struct Statistics {}

/// How many times `w` occurs in `s`.
pub open spec fn count_of(s: Seq<u64>, w: u64) -> nat
    decreases s.len(),
{
    if s.len() == 0 {
        0
    } else {
        count_of(s.drop_last(), w) + (if s.last() == w {
            1nat
        } else {
            0nat
        })
    }
}

/// Counts the occurrences of `w` in `data`.
pub fn count_occurrences(data: &Vec<u64>, w: u64) -> (c: usize)
    ensures
        c == count_of(data@, w),
{
    let mut c: usize = 0;
    let mut i: usize = 0;
    while i < data.len()
        invariant
            0 <= i <= data@.len(),
            c <= i,
            c == count_of(data@.subrange(0, i as int), w),
        decreases data@.len() - i,
    {
        proof {
            assert(data@.subrange(0, i + 1).drop_last() =~= data@.subrange(0, i as int));
            assert(data@.subrange(0, i + 1).last() == data@[i as int]);
        }
        if data[i] == w {
            c += 1;
        }
        i += 1;
    }
    proof {
        assert(data@.subrange(0, data@.len() as int) =~= data@);
    }
    c
}

/// Whether `v` holds the word `w`.
pub fn contains_word(v: &Vec<u64>, w: u64) -> (b: bool)
    ensures
        b == v@.contains(w),
{
    let mut i: usize = 0;
    while i < v.len()
        invariant
            0 <= i <= v@.len(),
            forall|k: int| 0 <= k < i ==> v@[k] != w,
        decreases v@.len() - i,
    {
        if v[i] == w {
            return true;
        }
        i += 1;
    }
    false
}

/// The modes of a sample: every value that occurs as often as any
/// value does, each listed once.  An empty sample has no modes.
pub fn calculate_mode(data: &Vec<u64>) -> (modes: Vec<u64>)
    ensures
        data@.len() == 0 ==> modes@.len() == 0,
        data@.len() > 0 ==> {
            &&& modes@.len() >= 1
            &&& forall|k: int| 0 <= k < modes@.len() ==> data@.contains(#[trigger] modes@[k])
            &&& forall|a: int, b: int| 0 <= a < b < modes@.len() ==> modes@[a] != modes@[b]
            &&& forall|k: int|
                0 <= k < modes@.len() ==> count_of(data@, #[trigger] modes@[k]) == count_of(
                    data@,
                    modes@[0],
                )
            &&& forall|w: u64|
                data@.contains(w) ==> count_of(data@, w) <= count_of(data@, modes@[0])
            &&& forall|w: u64|
                data@.contains(w) && count_of(data@, w) == count_of(data@, modes@[0])
                    ==> modes@.contains(w)
        },
{
    broadcast use vstd::seq_lib::group_seq_properties;

    let n = data.len();
    if n == 0 {
        let modes: Vec<u64> = Vec::new();
        return modes;
    }
    let mut max_c: usize = 0;
    let mut i: usize = 0;
    while i < n
        invariant
            n == data@.len(),
            n >= 1,
            0 <= i <= n,
            forall|k: int| 0 <= k < i ==> count_of(data@, #[trigger] data@[k]) <= max_c,
            i == 0 ==> max_c == 0,
            i > 0 ==> exists|k: int|
                0 <= k < i && count_of(data@, #[trigger] data@[k]) == max_c,
        decreases n - i,
    {
        let c = count_occurrences(data, data[i]);
        if c > max_c {
            max_c = c;
        } else {
            proof {
                if i == 0 {
                    assert(count_of(data@, data@[i as int]) == max_c);
                }
            }
        }
        i += 1;
    }
    let mut modes: Vec<u64> = Vec::new();
    let mut j: usize = 0;
    while j < n
        invariant
            n == data@.len(),
            n >= 1,
            0 <= j <= n,
            exists|k: int| 0 <= k < n && count_of(data@, #[trigger] data@[k]) == max_c,
            forall|k: int| 0 <= k < n ==> count_of(data@, #[trigger] data@[k]) <= max_c,
            forall|k: int| 0 <= k < modes@.len() ==> data@.contains(#[trigger] modes@[k]),
            forall|a: int, b: int| 0 <= a < b < modes@.len() ==> modes@[a] != modes@[b],
            forall|k: int|
                0 <= k < modes@.len() ==> count_of(data@, #[trigger] modes@[k]) == max_c,
            forall|k: int|
                0 <= k < j && count_of(data@, #[trigger] data@[k]) == max_c
                    ==> modes@.contains(data@[k]),
        decreases n - j,
    {
        let w = data[j];
        let c = count_occurrences(data, w);
        if c == max_c {
            let already = contains_word(&modes, w);
            if !already {
                let ghost old_modes = modes@;
                modes.push(w);
                proof {
                    assert(modes@[modes@.len() - 1] == w);
                    assert forall|k: int|
                        0 <= k < j + 1 && count_of(data@, #[trigger] data@[k]) == max_c
                        implies modes@.contains(data@[k]) by {
                        if data@[k] == w {
                            assert(modes@[modes@.len() - 1] == data@[k]);
                        } else {
                            assert(old_modes.contains(data@[k]));
                            let t = choose|t: int|
                                0 <= t < old_modes.len() && old_modes[t] == data@[k];
                            assert(modes@[t] == data@[k]);
                        }
                    }
                }
            }
        }
        j += 1;
    }
    proof {
        let ghost k0 = choose|k: int| 0 <= k < n && count_of(data@, #[trigger] data@[k]) == max_c;
        assert(modes@.contains(data@[k0]));
        assert(modes@.len() >= 1);
        assert(count_of(data@, modes@[0]) == max_c);
        assert forall|w: u64| data@.contains(w) implies count_of(data@, w) <= max_c by {
            let k = choose|k: int| 0 <= k < data@.len() && data@[k] == w;
            assert(count_of(data@, data@[k]) <= max_c);
        }
        assert forall|w: u64|
            data@.contains(w) && count_of(data@, w) == count_of(data@, modes@[0])
            implies modes@.contains(w) by {
            let k = choose|k: int| 0 <= k < data@.len() && data@[k] == w;
            assert(count_of(data@, data@[k]) == max_c);
        }
    }
    modes
}

} // verus!
