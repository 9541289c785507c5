# rhino

RHINO checks how a repository keeps its Markdown and governance documents:
word budgets, directory maps, heading levels, front matter, internal links,
Mermaid diagrams, naming, emoji, metadata, the instruction spine, companion
sets, and formal plans. Each of these is a library function that reads a
repository through a `Tree` and answers with a report; none fetches anything.
The files it walks are those the repository's tree lists; a filesystem link a
declared surface reaches is not yet followed.

The command-line entry point (`execute`) answers `version` and the
configuration check (`repo-config`). Every other command needs the policies
of the grouped configuration document, and this crate reads only that
document's schema version, so it refuses those commands with exit `2`
instead of guessing at a policy.

## Layout

- `src/` is the library, written in Verus. Every rule is a function whose
  contract states the report it produces as a function of what the repository
  answered: each validator's findings are given by spec functions over plain
  values, and the exec code is proved to produce exactly them. A `Tree`
  states what it answers (`reads_as`, `lists`, `roots_as`) and a `Launcher`
  what it may give back (`gives`); every validator's contract requires the
  listing it judged and each read it made to be the tree's answers, and the
  in-memory tree states its answers exactly.
  - `cli`, `errors`, `report`: the command line, the error codes, and how a
    report is rendered.
  - `config`, `config/v2`: reading the repository's configuration document.
  - `runtime`: the repository as the library sees it (`Tree`), an in-memory
    tree, and the launch boundary of gate children.
  - `scan`: which files a validator may look at.
  - `markdown/*`, `governance/*`, `convention/*`, `metadata`, `plan/*`,
    `gate`: the rules.
- `tests/` runs the library on concrete repositories built in memory.
- `app/` is the command-line program: arguments, standard input, the
  repository on disk, child processes, and the colour contrast that needs
  floating point.
