//! Placement of square patches over an image side.
use vstd::prelude::*;

verus! {

/// Offsets `0, step, 2 * step, ...` below `last`.
pub open spec fn multiples_below(last: nat, step: nat) -> Seq<u32> {
    Seq::new(((last + step - 1) / (step as int)) as nat, |k: int| (k * step) as u32)
}

/// Offsets of the patches of size `patch` along a side of `size` pixels,
/// `stride` apart (a stride of 0 is read as 1), with a last patch flush with
/// the end of the side; a single patch at 0 when the side is no longer than a
/// patch.
pub open spec fn patch_offsets(size: u32, patch: u32, stride: u32) -> Seq<u32> {
    if size <= patch {
        seq![0u32]
    } else {
        let step: nat = if stride == 0 {
            1
        } else {
            stride as nat
        };
        multiples_below((size - patch) as nat, step).push((size - patch) as u32)
    }
}

/// Offsets of the patches along one side of an image.
pub fn sliding_positions(size: u32, patch: u32, stride: u32) -> (r: Vec<u32>)
    ensures
        r@ == patch_offsets(size, patch, stride),
        forall|a: int, b: int| 0 <= a < b < r@.len() ==> r@[a] < r@[b],
        r@.len() >= 1,
        size > patch ==> r@.last() == size - patch,
{
    if size <= patch {
        return vec![0u32];
    }
    let step = if stride == 0 {
        1
    } else {
        stride
    };
    let last = size - patch;
    let mut positions: Vec<u32> = Vec::new();
    let mut value: u32 = 0;
    let ghost mut k: nat = 0;
    while value < last
        invariant
            step >= 1,
            last == size - patch,
            positions@ == Seq::new(k, |t: int| (t * step) as u32),
            k > 0 ==> (k - 1) * step < last,
            k * step <= u32::MAX ==> value == k * step,
            k * step > u32::MAX ==> value == u32::MAX,
        decreases u32::MAX - value,
    {
        assert(k * step <= u32::MAX);
        positions.push(value);
        proof {
            assert(positions@ =~= Seq::new(k + 1, |t: int| (t * step) as u32));
            assert((k + 1) * step == k * step + step) by (nonlinear_arith);
        }
        let previous = value;
        value = value.saturating_add(step);
        assert(value > previous);
        proof {
            k = k + 1;
        }
    }
    proof {
        assert(k * step >= last);
        if k > 0 {
            assert((k - 1) * step < last);
            assert(k == (last + step - 1) / (step as int)) by (nonlinear_arith)
                requires
                    k * step >= last,
                    (k - 1) * step < last,
                    step >= 1,
                    k > 0,
            ;
        } else {
            assert(last == 0 || false);
        }
        assert(positions@ =~= multiples_below(last as nat, step as nat));
    }
    let ghost before = positions@;
    positions.push(last);
    proof {
        assert forall|a: int, b: int| 0 <= a < b < positions@.len() implies #[trigger] positions@[a]
            < #[trigger] positions@[b] by {
            assert(a * step < b * step) by (nonlinear_arith)
                requires
                    0 <= a < b,
                    step >= 1,
            ;
            assert(a < k);
            assert(a * step <= (k - 1) * step) by (nonlinear_arith)
                requires
                    0 <= a <= k - 1,
                    step >= 1,
            ;
            if b < k {
                assert(b * step <= (k - 1) * step) by (nonlinear_arith)
                    requires
                        0 <= b <= k - 1,
                        step >= 1,
                ;
            }
        }
    }
    positions
}

} // verus!
