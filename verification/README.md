# Vertebrae

Vertebrae is a configurable, automatic backup utility for GNU/Linux.

- `src/` is the library, verified with Verus: Unix paths as byte strings (`path`), maps keyed by
  paths (`pathmap`), the settings (`config`), the journal of what has been backed up (`journal`),
  and the worker's decisions (`worker`): which event leads to which intent, where a backup goes,
  what becomes of an old state, which files a rescan brings up. What has to be asked of the file
  system or told to it is handed out step by step, and the answer is handed back.
- `app/` is the program: the settings file, the journal's file, the watcher, the tasks.
- `tests/` runs the library.

What the proofs rest on besides Verus: the clock (`time::clock`), lossy decoding of file names
(`text::to_text_lossy`) and SHA-256 digests (`worker::file::sha256_digest`).
