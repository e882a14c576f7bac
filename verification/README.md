# omavault

The helper behind the Omavault vault: a gocryptfs-encrypted folder that is
created, unlocked, locked and inspected from the Omarchy bar.

- `src/` is the library, verified with Verus: command-line parsing (`cli`),
  the vault layout and root (`paths`), the mount table (`mounts`), what is
  made of gocryptfs runs (`gocryptfs`: master key extraction, invocations,
  error texts with secrets scrubbed, unmount commands), the status file
  listing (`scan`), the processes holding the vault open (`holders`), and the
  decisions of every command (`session`, a step function the program drives).
- `app/` is the program: it reads arguments and standard input, does the
  file-system and process work each step asks for, and prints JSON.
- `tests/` runs the library on concrete inputs.
