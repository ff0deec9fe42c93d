# process_wrapper_worker

The decision logic of a persistent rustc worker for Bazel, verified with Verus.

- `src/` is the library. Every function in it carries a contract that Verus proves; the
  calls into `tinyjson` and into parts of std stand behind functions whose contracts are
  trusted, in `src/json.rs` and `src/text.rs`.
- `tests/` holds the tests.
- `app/` is the process around the library: standard input and output, threads, and the
  rustc child process.

The public proof functions whose names begin with `law_` state what holds of the library
as a whole.
