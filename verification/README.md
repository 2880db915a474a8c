# git-super

`git super` manages a set of git repositories listed in a `.git-super` INI
file: it runs a git command in each of them and prints a summary grouped by
the branch each repository tracks. `status` prints a formatted status report,
`grep <pattern>` searches each one-line log, `pr <pattern> <branch>` pushes
and opens GitHub pull requests where the log matches (with the `token` of
the `[github]` section, which it requires, and in the repositories of the
owner named by its `org`, or of `stackpath` where no `org` is set),
`checkout` resolves per-repository branch aliases, and `discover` lists the repositories found
below the current directory.

## Layout

- `src/` is the verified library (Verus):
  - `text.rs`: byte-exact UTF-8 string operations (search, cutting at
    character boundaries, splitting, white space).
  - `status.rs`: reading `git status --porcelain -b` and the decoration of
    `git log --decorate=short -1`.
  - `config.rs`: the `.git-super` document (through `rust-ini`), branch
    aliases, and discovery with its laws.
  - `order.rs`: string order and the stable sort by name.
  - `plan.rs`: what an invocation asks for, or why it is refused.
  - `project.rs`: the work in one repository as a sequence of requests
    (run git, read the status, push, open a pull request, ...), with its laws.
  - `github.rs`: the URL of a created pull request, read from GitHub's
    JSON reply (through `serde_json`).
  - `report.rs`: gathering the results and grouping them by tracking branch.
  - `render.rs`: the lines of the reports and their styles.
- `app/main.rs` runs processes, reads and writes files, talks to GitHub,
  walks directories and prints in color, driven by the library.
- `tests/` exercises the library on concrete inputs.
