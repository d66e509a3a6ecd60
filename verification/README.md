# atosaki

Saves and restores the windows of a Hyprland session.

- `src/` is the verified library: the configuration rules that classify
  windows (`config`, `matching`), what the process table says about a
  window's program (`procinfo`), the registry of open windows (`window`),
  what saving, loading and replacing a session do (`session`), the client's
  requests and the daemon's reading of them (`commands`, `protocol`), the
  command that reopens a window (`hyprland`), the earlier designs
  (`kuukiyomu`, `proto`), and the character-level string operations they
  share (`text`).
- `app/` is the program around it: the daemon (socket server, Hyprland
  calls, file and `/proc` reads), the command-line client, and the first
  session tool. The name the executable is started under picks one.
- `tests/` runs the library on concrete values.
