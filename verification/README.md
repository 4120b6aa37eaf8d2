# Loop Studio

A player to practise music with: it loops a passage, slows it down or speeds it
up without changing the pitch, shifts the pitch without changing the speed, and
keeps time with a metronome.

`src/` is the library. It holds everything that can be said exactly, and Verus
proves that the code does what the contracts say:

- `engine`: what the playback engine does with each command, where its next
  chunk of sound comes from, the metronome, the speed ramp and the output gain;
- `dsp`: time stretching in the time domain and on spectra, what stands on both
  sides of the resampler when the pitch is shifted, and the equaliser;
- `render`: exporting a loop;
- `analysis`: estimating a tempo;
- `audio`: reading files packet by packet, and the queue to the device;
- `session`: what is kept of a track, and where;
- `studio` and `ui`: the state of the program, and what each control does;
- `track`: decoded audio, markers and loops.

The library is generic over the numbers that samples are made of. `sample`
says what it asks of them, and `fixed` holds a type of numbers that meets it.

`app/` is the program around the library: the window, the files, the output
device, and the functions that only floating-point numbers have.

`tests/` runs the library on single-precision numbers, and so does `app/`. That
these meet what `sample` asks for is taken on trust: it is proved of `fixed`
alone.
