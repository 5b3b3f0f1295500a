# terra

`terra` launches isolated microVMs ("boxes") for AI agents. A box belongs to a
project directory, is made from a recipe that was agreed to and pinned, and is
started, joined, stopped, copied into and out of, and thrown away by name.

This crate is the part of it that decides. It is written in Rust and verified
with Verus: every function states what it returns for every input, and the
proofs are checked with the code. Files, processes, terminals and the virtual
machine itself stay outside. What the library needs to know of them comes in as
plain values, and what it wants done goes out as plain values: a multi-step
operation is a value with `next` and `advance`, driven by whoever can touch the
disk or the box.

## Layout

`src/`, the verified library:

- `text`, `bytes`, `unicode`, `ordered`, `path`, `host`, `error` - texts, paths
  as a host reads them, and errors, with the views that contracts are written
  over
- `config`, `recipe`, `env`, `env_file`, `network`, `mount`, `name` - recipes:
  what one may say, and what it may share with a box
- `state`, `resolve` - the machine's settings, boxes on disk, and which one a
  command means
- `setup`, `show`, `start`, `stop`, `rm`, `ls` - the life of a box
- `storage` - its images: listing them, packing them into artifacts and taking
  them out again, and an import that loses nothing wherever it is cut off
- `session`, `exec_env`, `put_get`, `sync` - talking to the agent in a box,
  copying files and synchronising trees
- `cli`, `render`, `timezone` - the command line, and what is printed

`app/` is the program around it: argument parsing, files, locks and processes.

`tests/` run the library on examples.

## Laws

Beside the contracts stand public proof functions, each stating one thing the
library keeps to whatever happens: that a guest-writable recipe is never pinned
unseen, that an accepted link never leads out of the tree it is copied into,
that nothing is removed before everything was copied, that a rehearsal does
nothing, that nothing is left of trying names on a destination, that a fetched
file replaces another only whole, that an import cut off at any step is
recovered, that what is exported of a box is in another once it was imported,
byte for byte, that settings are read once, that redaction forgets values. Their doc comments say what each states.

## Trusted code

The outside functions the library calls are wrapped in `unicode`, `text`,
`state` and `sync::digest`: a few of the standard library's string functions,
the canonical decomposition of `unicode-normalization`, and the SHA-256 digest
of `sha2`, of bytes at once and of a file as it is read. Each wrapper says what
is taken on trust.
