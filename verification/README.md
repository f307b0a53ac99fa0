# triple_osc

A three-oscillator polyphonic CLAP synthesizer. The library in `src/` holds
the logic that decides, proved with Verus:

- `voices`: the pool of sixteen voices: starting a voice in the first free
  slot or stealing the oldest, releasing and choking voices by voice ID or by
  note and channel, ending faded voices, and the reports the host receives for
  every voice that ends.
- `blocks`: splitting an audio buffer into blocks of at most 64 samples that
  end where note events happen.
- `fallback`: the voice ID of a note when the host gives none.
- `modulation`: the numbers that name polyphonically modulated parameters.
- `wave`: the oscillator shapes.
- `rng`: the `rand_pcg` generator, seeded with state 420 on stream 1337
  whenever the voice pool is created or reset.

`app/` holds the plugin itself: the `nih_plug` parameters, the editor, and
the floating-point rendering of the oscillators.
