use vstd::prelude::*;

verus! {

/// The order-preserving key of an IEEE-754 double's bit pattern: under this
/// key, unsigned comparison of keys agrees with the IEEE-754 total order of
/// the doubles (negative values reversed and placed below the positive ones).
pub open spec fn spec_f64_key(bits: u64) -> u64 {
    if bits >= 0x8000000000000000 {
        !bits
    } else {
        (bits + 0x8000000000000000) as u64
    }
}

/// Computes the total-order key of a double's bit pattern.
pub fn f64_total_key(bits: u64) -> (r: u64)
    ensures
        r == spec_f64_key(bits),
{
    if bits >= 0x8000000000000000 {
        !bits
    } else {
        bits + 0x8000000000000000
    }
}

/// Whether the sample vector is sorted under the IEEE-754 total order.
pub open spec fn sorted_by_key(v: Seq<u64>) -> bool {
    forall|i: int, j: int| 0 <= i <= j < v.len() ==> spec_f64_key(v[i]) <= spec_f64_key(v[j])
}

/// Binary search for the last sample at or below `target` in a sorted vector
/// of double bit patterns: returns the greatest index `i` with
/// `data[i] <= target` under the IEEE-754 total order, and nothing exactly
/// when the vector is empty or every sample exceeds `target`.
#[verifier::loop_isolation(false)]
pub fn bin_search_before(data: &[u64], target: u64) -> (r: Option<usize>)
    requires
        sorted_by_key(data@),
    ensures
        match r {
            Some(i) => i < data@.len() && spec_f64_key(data@[i as int]) <= spec_f64_key(target) && (
            i + 1 == data@.len() || spec_f64_key(data@[i + 1]) > spec_f64_key(target)),
            None => data@.len() == 0 || spec_f64_key(data@[0]) > spec_f64_key(target),
        },
{
    let kt = f64_total_key(target);
    let mut lo: usize = 0;
    let mut hi: usize = data.len();
    while lo < hi
        invariant
            lo <= hi <= data@.len(),
            forall|j: int| 0 <= j < lo ==> spec_f64_key(data@[j]) <= spec_f64_key(target),
            forall|j: int| hi <= j < data@.len() ==> spec_f64_key(data@[j]) > spec_f64_key(target),
        decreases hi - lo,
    {
        let mid = lo + (hi - lo) / 2;
        if f64_total_key(data[mid]) <= kt {
            proof {
                assert forall|j: int| 0 <= j <= mid implies spec_f64_key(data@[j]) <= spec_f64_key(
                    target,
                ) by {
                    assert(spec_f64_key(data@[j]) <= spec_f64_key(data@[mid as int]));
                }
            }
            lo = mid + 1;
        } else {
            proof {
                assert forall|j: int|
                    mid <= j < data@.len() implies spec_f64_key(data@[j]) > spec_f64_key(target) by {
                    assert(spec_f64_key(data@[mid as int]) <= spec_f64_key(data@[j]));
                }
            }
            hi = mid;
        }
    }
    if lo == 0 {
        None
    } else {
        Some(lo - 1)
    }
}

} // verus!
