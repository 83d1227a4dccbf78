# ShellKeeper

A desktop SSH connection manager with an embedded terminal. Connections are
saved with their port forwarding rules, SSHFS mounts, authentication and tmux
persistence; each opens in a tab running `ssh` in a pseudo-terminal.

## Layout

- `src/` — the verified library (Verus). It holds the connection model and
  the application's decisions: the `ssh`, `sshpass`, `sshfs` and
  `ssh-keygen` argument lists, SSH command import and the command preview,
  the connection form, the sidebar's search, favourites, recents and groups,
  the terminal's key encoding, its focus and selection state and the text a
  selection copies, colours and themes, key
  types, what saving does to a stored password, where a session log goes,
  and which tab stays active when tabs close. What remains in `app/` is
  drawing, input plumbing and I/O. Each public function states its
  result in its contract; cross-function properties stand as proof functions
  (`lemma_*`), such as the preview of a form importing back to the same
  connection details, or an edited connection saving back unchanged.
- `app/` — the program around it: the egui/eframe user interface, the
  pseudo-terminal sessions and their reader threads, the configuration file,
  the OS keyring, and the processes it starts.
- `tests/` — tests of the library on concrete values.

The calls that reach outside the library (home-directory expansion, random
UUIDs, the clock, lowercase conversion, the alphanumeric test and appending a
character to a string) sit behind
a few trusted wrappers in `src/host.rs` and `src/text.rs`, each documented
with what its contract claims.
