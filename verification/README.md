# rustwav

The WAV codec logic of rustwav as a library proved with Verus: the ADPCM codecs (IMA,
Microsoft and Yamaha), the bit packing of `BitwiseData`, the fixed-capacity `CopiableBuffer`,
the ADPCM decoder and encoder wrappers, channel masks, the downmix layouts, the extensible
`fmt ` chunk decision and the error types.

Each public function states in its contract what it returns or changes, over plain
mathematical models (`Seq`, `int`, the `View` of each type); the laws that relate several
functions stand as public proof functions beside them, among them:

- an encoder's output, decoded by a decoder in the same state, gives back the encoder's
  reconstruction of the samples (IMA, MS and Yamaha, mono and stereo);
- encoding or decoding in chunks gives what one call gives;
- a decoder's bytes eaten stay below the block size; `shrink_to_fit` is idempotent;
- data that no encoder writes (a step-size index out of the table, a predictor that would leave
  32 bits) gives an `AdpcmError`, not a panic.

Layout:

- `src/` is the verified library; `src/adpcm/` holds the three codecs and their round-trip
  proofs.
- `tests/` runs the library on concrete inputs.
- `app/` is the ordinary Rust around it: file and stream I/O, `std::io::Error` conversions,
  and the floating-point downmix gains.
