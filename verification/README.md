# risingwave_core

Verified building blocks of a streaming database, in Rust with Verus:

- `src/hop_window.rs`: the hop window executor, which sends each row once for every hopping window
  that covers its time. `src/hop_window_laws.rs` proves that these are all the windows that cover
  the row, each once, in ascending order, and no others. That holds of windows that are measured in
  days and milliseconds, of rows whose first window does not start before the epoch, and of an
  engine that computes times as expected, which the file states as `keeps_time`.
- `src/projection.rs`: the projection executor.
- `src/shared_buffer_uploader.rs`: the uploader of shared buffers, as steps that decide what is
  flushed, what is reported and when to stop. `src/shared_buffer_uploader_laws.rs` states what
  holds across the steps.
- `src/interval.rs`, `src/array.rs`, `src/expr.rs`, `src/plan.rs`, `src/types.rs`, `src/error.rs`:
  the values that these work on.

Evaluating an expression, building a child executor and compacting a buffer are the work of the
engine around the library. The executors take them as functions, and their contracts hold for any
function. `app/` runs the library on such an engine, with asynchronous streams and tasks.

Code from other crates that the library calls is `num_traits::CheckedSub` and the sending end of
`tokio`'s one-shot channel. Their contracts are trusted, as is that of `Arc::clone`; each stands
with a comment next to its use.
