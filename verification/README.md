# check_login

A command-line helper for LDPlayer emulators: it watches each running
instance for the game's login screen, fills in an account from `Acc.csv`,
starts and arranges instances, and drives the NPH tool window.

The logic is a library verified with Verus (`src/`):

- `text` — splitting, trimming and integer parsing with the semantics of `str`.
- `account` — the accounts file, rebinding an account to an instance, and the
  session that hands out accounts (one per instance, never twice).
- `adb`, `ldplayer` — the adb and `ldconsole` commands, and reading their output.
- `template` — the pixel matcher that finds a button on a screenshot.
- `config` — the settings, their defaults and file locations.
- `windows` — the running windows in index order and their grid layout.
- `control`, `nph` — menu answers, settings changes, start-up plans, click plans.
- `tasks` — the login form and the per-instance watch task as a state machine.

`app/` is the program around it: console, files, processes, images, the
Windows API and the async runtime.
