# nih_faust_jit

The logic of an audio plugin that runs Faust DSP scripts, compiled just in time:
verified with [Verus](https://github.com/verus-lang/verus).

* `src/` is the library. Every function states what it does, and Verus proves it.
  Samples, levels and parameter values travel as IEEE-754 bit patterns (`bits`), whose
  order is read off with integer arithmetic.
  * `widgets`: the widget tree of a script, what is drawn of it, what the user does to
    it, saving and restoring its values, polyphonic voices, meters
  * `session`, `presets`, `store`: what is loaded, and which values survive a reload
  * `audio_file`: choosing a track, sorting samples into channels, playback
  * `oversampling`: the order of samples through a cascade of halfband filters
  * `testbench`: ring buffers, oscilloscope, spectrum, bands, timings
  * `gui`: the decisions of the user interface
  * `standalone`, `config`: the command line and the saved device selections
* A few calls out of the library are taken at their word; the doc comment of each says
  what is relied on. They are the ring of the `ringbuf` crate with its two ends
  (`ring`, `push_slice`, `try_pop` and `occupied_len` in `testbench::ring_buffer`), the
  clock (`now` in `clock`, `elapsed` and `as_nanos` in `testbench::benchmarking`),
  sharing an `Arc` (`share` in `audio_file`) and `String::push` (in `text`).
* `tests/` runs the library.
* `app/` is ordinary Rust around it: the plugin host, drawing, files, devices, and
  everything that computes with floating-point numbers.
