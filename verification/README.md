# dsh-xlink

A desktop shell for the dsh kernel: it installs versions of the kernel, starts
and guards the one that is in use, shows its workbench, keeps instances apart,
and moves what lies in old places to new ones.

- `src/` is the library. It decides: what to start and what to stop, which
  plugin a log points at, what a move copies, backs up or leaves, which runtime
  to use. Every function has a contract, and the contracts are proved with
  Verus. What holds of several functions together stands beside them as `law_*`.
- `app/` is the program around it. It reads and writes files, runs processes,
  asks the network and makes windows, and does what the library decides. It needs
  Tauri for its windows.
- `tests/` runs the library on given values.

Where the library needs another crate (JSON, YAML, tarballs, addresses, the
calendar), the call stands in a small function of its own, whose contract says
what is relied on.
