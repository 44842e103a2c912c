# causal_decoder

A causal language model decoder whose logic is verified with Verus: hybrid layers (full
attention with a key/value cache, linear attention with a recurrence, dense or
mixture-of-experts feed-forward blocks), prompts with a prefix cache, greedy and drawn
generation, speculative generation with a draft head or a block draft model, several
streams at once, and programs for a device that keeps the rows of a decoder.

## Layout

- `src/` is the library. Every item of it is verified.
  - `kernel` names the arithmetic. The library computes with no number itself: it is
    written over a `Kernel`, of which it assumes nothing. What is stated of numbers is
    stated for kernels that answer equal questions equally (`functional`).
  - `tensor`, `rows`, `linear`, `heads`, `attention`, `attend`, `kv`, `context`, `layer`
    and `model` take rows through the decoder; `batching`, `cold`, `warmth`,
    `transparency` and `firsthand` show when batches, chunks, caches and prefixes change
    nothing. A batch behind a position that was seen is the rows one by one, whatever the
    arithmetic. A batch on an empty cache divides its scores by a root where a single row
    multiplies them by one over it, so there, and for prompts that are taken in another way
    than at first sight, the arithmetic has to make the two agree (`reciprocal`, `steady`).
  - `options`, `sampling`, `decode`, `prefill`, `prefix_cache`, `prompts`, `decoder`,
    `sink` and `snapshot` generate tokens.
  - `speculation`, `mtp`, `adaptive`, `capture`, `dflash` and `lightbatch` generate with
    guesses or side by side; `exactness`, `dflash_exactness` and `lightbatch_exactness`
    show that the tokens are those of a generation on its own: from the same start, or
    where the start of the prompt is taken in the same way, whatever the arithmetic, and
    from any start where it makes the two ways agree. `lightbatch_order` shows that streams
    in the background give way to the first one.
  - `names`, `affine`, `store`, `loading`, `archive`, `sidecar` and `checkpoint` read
    weights.
  - `solo_route` says which way the tokens of a generation are taken, and `layer_route`
    which parts of a layer go to a device at one call; it also takes the device's
    answers. `device` says what a device does; `resident*`, `pipeline`, `rollback`, `duo*`, `xray`
    and `append_check` make the programs for it and take its answers.
- `tests/` runs the library with an `f32` kernel and a device played on the host.
- `app/` is ordinary Rust around it: environment, files, `f32` arithmetic, reports and the
  loops that drive a device.
