use vstd::prelude::*;

verus! {

/// `num` rounded up to the nearest multiple of `multiple`; `num` itself
/// when `multiple` is zero.
pub open spec fn spec_round_up(num: nat, multiple: nat) -> nat {
    if multiple == 0 {
        num
    } else if num % multiple == 0 {
        num
    } else {
        (num + multiple - num % multiple) as nat
    }
}

/// Rounds `num` up to the nearest multiple of `multiple`.
pub fn round_up(num: usize, multiple: usize) -> (r: usize)
    requires
        num + multiple <= usize::MAX,
    ensures
        r == spec_round_up(num as nat, multiple as nat),
        r >= num,
        multiple != 0 ==> r % multiple == 0 && r < num + multiple,
{
    if multiple == 0 {
        return num;
    }

    let remainder = num % multiple;
    if remainder == 0 {
        num
    } else {
        proof {
            assert((num + multiple - num % multiple) % (multiple as int) == 0) by (nonlinear_arith)
                requires multiple > 0;
        }
        num + multiple - remainder
    }
}

/// The smallest power of two that is at least `v`; zero when `v` is zero.
pub fn round_up_power_of_two(v: u32) -> (r: u32)
    requires
        v <= 0x8000_0000,
    ensures
        v == 0 ==> r == 0,
        v > 0 ==> r > 0 && (r & ((r - 1) as u32)) == 0 && r >= v && v > r / 2,
{
    if v == 0 {
        return 0;
    }

    let x0 = v - 1;
    let x1 = x0 | (x0 >> 1);
    let x2 = x1 | (x1 >> 2);
    let x3 = x2 | (x2 >> 4);
    let x4 = x3 | (x3 >> 8);
    let x5 = x4 | (x4 >> 16);

    proof {
        assert(x5 < 0xffff_ffffu32 && (((x5 + 1) as u32) & x5) == 0 && x5 + 1 >= v && v > (x5
            + 1) / 2) by (bit_vector)
            requires
                1 <= v <= 0x8000_0000u32,
                x0 == (v - 1) as u32,
                x1 == x0 | (x0 >> 1u32),
                x2 == x1 | (x1 >> 2u32),
                x3 == x2 | (x2 >> 4u32),
                x4 == x3 | (x3 >> 8u32),
                x5 == x4 | (x4 >> 16u32),
        ;
    }

    x5 + 1
}

} // verus!
