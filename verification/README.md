# lumi_workbench

The verified core of a small desktop workbench for tasks, appointments,
supplements, books and notes. The rules of the program are in `src/`, with
contracts that Verus proves. The program around them, which reads and writes
files, asks the network and shows the window, is in `app/`.

- `reminders`, `background`, `calendar`: which reminders are due at a moment, that
  each is told once a day, and the daily backup.
- `store`, `files`, `names`: saving and loading the data, contents in files of
  their own, and how files are replaced.
- `backups`, `copying`, `disk`: how a backup is made, which backups are kept, which
  one is restored, and how a directory tree is copied or linked without loss.
- `updates`, `holidays`: what the release service and the holiday service answer.
- `json`, `codec`: documents, and the way between documents and text.
- `text`, `shell`: helpers on text, and what the window and the tray do.

The proofs rely on the documented behaviour of a few functions of `serde_json`
and `chrono`. Each is stated where it is called, in `codec`, `json` and
`calendar`.

`app/storage.rs` and `app/network.rs` perform what the library decides, and
`app/desktop.rs` is the window, the tray and the commands.
