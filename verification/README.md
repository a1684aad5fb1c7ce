# rusty_h264_encoder

The macroblock layer of an H.264 encoder, with its decisions verified.

The library in `src/` codes I, P and B slices: it searches motion, chooses partitions, intra modes
and transforms, refines levels, and turns macroblocks into syntax elements or bins. It also writes
parameter sets and slice headers, looks ahead over groups of frames, and measures the signals by
which frames are routed. Every function states what it returns or changes, and Verus proves it.

Laws that relate several functions are public proof functions whose names start with `law_`: that
syntax reads back, that a trial leaves no trace, that a search never loses, that offsets stay in
their range, and others.

Sample kernels (interpolation, transforms, quantisers, intra predictions) and prices come through
the trait `kernels::Kernels`. Nothing is assumed of them but that they are functions
(`kernels::steady`) and, where sums of prices must fit, that prices are modest.

`app/` holds what surrounds the library: weights and signals in floating point, the settings of
the process, the files that decisions are recorded in, and slices put together from all of it.
`tests/` runs the library on concrete values.
