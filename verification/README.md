# procon

A proxy, recorder and studio for the Pro Controller, with its logic verified by
Verus.

- `src/` is the library: reading and writing input reports, replaying and
  playing recordings, the link between proxy and studio, the recorder, the
  video and sound processes, the session inspector, object labels, detection
  runs, video reviews and downloads, and the knowledge page. Every function
  states what it returns or changes, but for `clock::unix_ms` and
  `knowledge::now_ms`, which can return any number: they read the clock, and
  functions beside them state what they make of a reading. Proof functions whose
  names start with `law_` state what holds across functions.
- `app/` is the program around it: devices, sockets, files, child processes,
  threads and the web server. Each loop there performs what the library decided
  and hands the outcome back.
- `tests/` runs the library on concrete values.

The functions marked `#[verifier::external_body]` call into other crates or the
standard library; what each of them claims of that call is written above it and
is not proved.
