# ghciwatch

`ghciwatch` loads a GHCi session for a Haskell project and keeps it up to date: it watches the sources,
adds and removes modules, reloads, restarts what has crashed, runs hooks, and publishes the errors of
the last compilation in a file.

The decisions are in a library that is written in Verus. What a function returns is stated in its
contract and proved; what holds over many steps is stated in public proof functions.

- `src/ghci/manager` decides which changes are still to be dispatched, when a reload gives way to a
  newer change, and how a session that died is replaced.
- `src/ghci/session` holds the steps of a session: its start, its initialization, reloads, additions,
  interruptions, restarts, and the end of each compilation.
- `src/ghci/process` finds and ends all processes of a session; `src/ghci/memory.rs` measures them.
- `src/ghci/stdin.rs`, `stdout.rs` and `stderr.rs` hold the protocol on the three pipes, and
  `src/ghci/parse` reads what the compiler says.
- `src/ghci/file_classifier.rs` says what changed paths ask for, by the patterns of `src/glob.rs` and the
  rules of `src/ghci/classify.rs`, and `src/ghci/show.rs` reads what a session shows of its search paths
  and targets.
- `src/watcher` tells real changes from notifications, by the contents of files.
- `src/eval_socket.rs` answers requests to evaluate code.

Where something has to happen in the world, a function takes what happened and says what is to be done
next. The program in `app` does it: it runs processes, reads and writes pipes, watches files and listens
on the socket.
