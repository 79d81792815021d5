//! Sizing of the room-correction convolution: the impulse response must be
//! long enough, and the FFT size is the smallest power of two that holds a
//! block plus the response's tail.
use vstd::prelude::*;

verus! {

/// Fewest impulse-response samples accepted.
pub const MIN_IR_SAMPLES: usize = 64;

/// Block (partition) size of the overlap-add convolution.
pub const BLOCK_SIZE: usize = 512;

/// Whether `n` is a power of two.
pub open spec fn is_power_of_two(n: nat) -> bool
    decreases n,
{
    if n == 1 {
        true
    } else if n == 0 || n % 2 == 1 {
        false
    } else {
        is_power_of_two(n / 2)
    }
}

/// `n` is the smallest power of two that is at least `min`.
pub open spec fn is_next_power_of_two(n: nat, min: nat) -> bool {
    &&& is_power_of_two(n)
    &&& n >= min
    &&& (n == 1 || n / 2 < min)
}

/// FFT size for an impulse response of `ir_len` samples: the smallest power
/// of two at least `BLOCK_SIZE + ir_len - 1`.
pub fn fft_size_for_ir(ir_len: usize) -> (n: usize)
    requires
        1 <= ir_len,
        ir_len + BLOCK_SIZE - 1 <= usize::MAX / 2 + 1,
    ensures
        is_next_power_of_two(n as nat, (BLOCK_SIZE + ir_len - 1) as nat),
{
    let min = BLOCK_SIZE + ir_len - 1;
    let mut p: usize = 1;
    while p < min
        invariant
            min == BLOCK_SIZE + ir_len - 1,
            min <= usize::MAX / 2 + 1,
            1 <= p,
            p < 2 * min,
            is_power_of_two(p as nat),
            p == 1 || p / 2 < min,
        decreases 2 * min - p,
    {
        assert(is_power_of_two((p * 2) as nat)) by {
            assert((p * 2) as nat / 2 == p as nat);
        }
        p = p * 2;
    }
    p
}

/// Buffer sizes of a convolution over an impulse response.
#[derive(Debug, Clone, Copy, PartialEq, Eq, Structural)]
pub struct ConvolutionLayout {
    /// FFT size (a power of two).
    pub fft_size: usize,
    /// Length of the overlap tail carried between blocks.
    pub tail_len: usize,
}

/// An impulse response shorter than `MIN_IR_SAMPLES`.
#[derive(Debug, Clone, Copy, PartialEq, Eq, Structural)]
pub struct IrTooShort {
    pub samples: usize,
}

/// Buffer sizes for an impulse response of `ir_len` samples; refused when
/// the response is shorter than `MIN_IR_SAMPLES`.
pub fn convolution_layout(ir_len: usize) -> (r: Result<ConvolutionLayout, IrTooShort>)
    requires
        ir_len + BLOCK_SIZE - 1 <= usize::MAX / 2 + 1,
    ensures
        ir_len < MIN_IR_SAMPLES <==> r is Err,
        r matches Err(e) ==> e.samples == ir_len,
        r matches Ok(l) ==> {
            &&& is_next_power_of_two(l.fft_size as nat, (BLOCK_SIZE + ir_len - 1) as nat)
            &&& l.tail_len == ir_len - 1
        },
{
    if ir_len < MIN_IR_SAMPLES {
        return Err(IrTooShort { samples: ir_len });
    }
    let fft_size = fft_size_for_ir(ir_len);
    Ok(ConvolutionLayout { fft_size, tail_len: ir_len - 1 })
}

} // verus!
