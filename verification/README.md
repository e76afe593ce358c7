# vision_autoresearch

A keep-or-revert research loop, verified with Verus.

Give it one editable artifact, a frozen evaluator and a scalar metric, and it runs:

    propose a variation -> commit -> score -> keep if the metric strictly improved, else revert
    -> log -> repeat

What is left behind is a history of validated improvements and a log of every attempt.

## Layout

- `src/` is the library. Every function has a contract that Verus proves; the `law_` proof
  functions state what holds across functions: the baseline never gets worse, a crash is never
  kept and never wins a sweep, the history is the kept part of the log, a revert leaves the branch
  as it was before the candidate, a proposal moves no knob by more than a step, folds are scored
  strictly out of sample, what is computed with a reproducible arithmetic is reproducible, whole
  runs included. Every loop is proved to end, also one that runs until nothing improves any more.
- `tests/` runs the library.
- `app/` is the program around it: the command line, the Python module, files, processes, the
  ONNX runtime, and an adapter that turns the panic of an evaluator into a NaN, which the loop logs
  as a crash. Started under the name `keep_or_revert`, the program prints every kept iteration of
  the demonstration.

## Numbers

The library holds binary64 numbers by their bit pattern. It compares, selects and clamps them
itself, exactly. Sums, products and roots come from an `Arithmetic` that the caller supplies; the
contracts say which operations are applied to what and hold for any arithmetic. `app/` supplies
the machine's.

## What is trusted

- `parallel::par_map` runs a function over a slice with rayon and keeps the order.
- `text` relies on `String::push` and `str::to_lowercase`.
- `attempt_log` reads the clock.

## Dependencies

`rayon` is the library's own. The others serve `app/`; `kstring` is held at a release that the
compiler in use still builds, because `tract-onnx` would otherwise take a newer one.
