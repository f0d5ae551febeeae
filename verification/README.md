# rjrssync

A fast rsync-like tool for incrementally copying files between local and remote folders,
written in Rust and verified with Verus.

## Layout

- `src/` is the library, verified by Verus. It holds the logic of a sync and its contracts:
  - `root_relative_path`, `ordered_map`, `entries_list`, `text`: the data the rest works on;
  - `filters`: which entries a sync includes;
  - `boss_frontend`, `remote_desc`, `sync_roots`: reading sync specs and command-line paths, and
    checking the roots of a sync;
  - `boss_sync`, `confirm`: deciding what to delete and copy, asking before destructive steps,
    and summing up what was done. The proofs are over the planned actions: applying them to the
    destination's entries gives the source's entries, and planning again from there finds nothing
    to do. The planned actions turn into the steps that carry them out, in order, and in a dry
    run every step is only a report. Sending those steps and moving the data is the work of
    `app/`;
  - `boss_doer_interface`, `doer`: the commands and responses between the boss and its doers, and
    the doer's decisions for each command;
  - `encrypted_comms`, `boss_launch`: framing and encrypting messages, and the start-up handshake
    with a doer launched over ssh;
  - `exe_utils`, `boss_deploy`, `section_laws`: reading and adding sections of ELF and PE
    executables, which carry the binaries for other platforms, with the proofs that an added
    section is found again, and that the other sections are found as before;
  - `profiling`: turning timed scopes into a Chrome trace;
  - `memory_status`: reading the peak memory use from a process status text;
  - `memory_bound`: when a sender waits on a channel limited by memory.
- `app/` is the program around the library: command-line parsing, files, processes, threads and
  the network.
- `tests/` runs the library: unit scenarios and whole syncs between in-memory filesystems.
