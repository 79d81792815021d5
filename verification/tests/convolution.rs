use tunecraft::convolution::{
    convolution_layout, fft_size_for_ir, ConvolutionLayout, IrTooShort, BLOCK_SIZE,
    MIN_IR_SAMPLES,
};

#[test]
fn fft_size_is_next_power_of_two_of_block_plus_tail() {
    assert_eq!(BLOCK_SIZE, 512);
    assert_eq!(fft_size_for_ir(1), 512);
    assert_eq!(fft_size_for_ir(64), 1024);
    assert_eq!(fft_size_for_ir(513), 1024);
    assert_eq!(fft_size_for_ir(514), 2048);
    assert_eq!(fft_size_for_ir(65536), 131072);
}

#[test]
fn short_impulse_responses_are_refused() {
    assert_eq!(MIN_IR_SAMPLES, 64);
    assert_eq!(convolution_layout(63), Err(IrTooShort { samples: 63 }));
    assert_eq!(convolution_layout(0), Err(IrTooShort { samples: 0 }));
    assert_eq!(
        convolution_layout(64),
        Ok(ConvolutionLayout { fft_size: 1024, tail_len: 63 })
    );
    assert_eq!(
        convolution_layout(4096),
        Ok(ConvolutionLayout { fft_size: 8192, tail_len: 4095 })
    );
}
