# codesync

Sync code and notes between a computer and SSH servers, and run commands
there. The library in `src/` holds the rules and decisions, each with a
contract proved by Verus; `app/` is the `codesync` command around it.

## Layout

- `src/` — the verified library:
  - `config`, `destination`, `shell`, `cli`, `update`: the `.codesync` file,
    SSH and rsync destinations, shell quoting, the command line and the
    update steps.
  - `merge`, `sync_job`, `sync_run`: content-based merge planning (every
    version kept, originals renamed and never overwritten) and the steps of
    a two-way sync.
  - `store`, `home`, `dialogs`: saved servers, folders and links, and what
    the desktop app's screens do with them.
  - `commands`, `endpoint`, `tailscale`, `ip`, `discovery`, `auth`, `jobs`:
    the ssh and rsync command lines of jobs, choosing a server address,
    Tailscale status, address parsing, network scans, password prompts and
    job output.
  - `browser`, `viewer`: the read-only folder viewer.
  - `platform`, `standalone`, `text`, `order`: Windows paths, the minimal
    command's configuration, text and ordering helpers.
- `tests/` — tests of the library.
- `app/` — the command-line program: file and process I/O, JSON through
  serde, and the calls into the operating system.

Run the verifier on `src/lib.rs`; the tests and the program build against
the compiled library.
