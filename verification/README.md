# boobytrap

Detects and acts on unauthorized access: an increase of USB devices, network
failure, filesystem changes, an SSH burn file.

- `src/` is the verified library: the settings model and its lookups, text
  handling (lines, tokens, decimal numbers), the default files and paths,
  snapshots of the monitored files as plain values, the order in which the
  monitors are visited, and each monitor as a state machine that takes what
  was observed and reports what to do.
- `app/` is the program around it: reading the settings file, running the
  listing commands, pinging, looking for the burn file over SSH, hashing the
  monitored directories, closing encrypted volumes, posting to Discord and
  the main loop.
- `tests/` exercises the library on concrete values.
