# slio_git

The verified core of a desktop Git client: the data model of a repository
(changes, hunks, branches, commits, blame, history graph), the rules it
follows (patches for staging hunks and lines, merge and squash messages,
history rewriting plans, push targets, clone URL checks, `.gitignore`
templates, and the native history engine: which plans it accepts, how it
steps through a journaled operation, what each replayed commit is made of,
and the order and checks of its worktree transitions) and the state of its editors (three-way merge,
split and unified diffs, autosquash of rebase todo lists, status bar, commit
comparison).

Layout:

- `src/` is the library, written in Verus. Its functions state in
  contracts what they return or change (a few small helpers whose callers
  need nothing of them have none), and proof functions state the properties
  that span several calls. `src/text.rs` and `src/path.rs` hold the text and path helpers the
  rest builds on; `src/git/` the repository model and its rules;
  `src/ui/` the state and layout computations of the editors and widgets.
- `tests/` runs the library on concrete values.
- `app/` is ordinary Rust around the library: it reads and writes
  repositories through `git2` and the file system (including the native
  engine's journal, kept as JSON), stores settings with `serde_json`, and
  gives the library's types the derives that need outside crates.
