# cftesting

A command-line tool that installs Chrome for Testing builds (Chrome,
ChromeDriver, Chrome Headless Shell) under `~/.cft/<binary>/<version>`.

- `src/` is the library, verified with Verus: reading `<name>@<version>`
  entries, searching the published JSON indexes once they are read into the
  library's types, the paths of installations and unpacked files, the channel
  and installation listings, and the platform names.
- `app/` is the program around it: the command line (clap), HTTP requests
  (reqwest, tokio), reading JSON (serde), unpacking archives (zip), the
  progress bar (indicatif) and the file system.
- `tests/` runs the library on concrete values.
