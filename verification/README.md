# rcsync

A desktop companion for rclone that keeps local project folders in step
with a cloud remote: Push, Pull, Check and Bi-Sync per project, folder
discovery, file watching, device-local scheduled Pushes and retired-target
protection.

## Layout

- `src/` — the decision logic, verified with Verus:
  - `model.rs`, `settings.rs`, `automation.rs`, `local_edits.rs`: the shared
    config, the device-local automation layer, how they are read, merged,
    edited and saved;
  - `selection.rs`, `status.rs`, `watch.rs`: which project a request acts on,
    the dashboard rows, the watched folders;
  - `filters.rs`, `rclone_args.rs`, `rclone_runs.rs`, `rclone_output.rs`: the
    exclude rules, the rclone argument vectors and the reading of rclone's
    answers;
  - `operations.rs`: the per-project operation registry and its cancels;
  - `schedule.rs`, `scheduler.rs`: schedules, their occurrences, and the
    scheduled-Push state machine with its durable history;
  - `identity.rs`, `text.rs`, `seqs.rs`, `order.rs`, `idmap.rs`: identities,
    text, sequences, orders and the ID-keyed maps the rest is built on.
- `tests/` — the library's tests.
- `app/` — the program around the library: files, processes, the scheduler
  thread, the folder watcher, the instance lock and the command channel to the
  front end (JSON lines on stdin and stdout).

Each module states its contracts in `requires`/`ensures`; the laws that span
functions are the `law_*` proof functions.
