# History of session transcripts

A command line program (`cch`) that imports the JSONL transcripts of an assistant into a SQLite
database, lists and searches the sessions, prints whole transcripts, and serves a small web page.

What it computes is a Verus library: the functions under `src/` have contracts that Verus proves.
What it takes from outside is trusted, not proved: the items of `json` that stand for `serde_json`
(its values, numbers and maps, reading and printing), `String::push` in `text`, and
`String::from_utf8_lossy` in `url`. A comment at each of them says what is claimed.

| Module | What it holds |
| --- | --- |
| `text`, `format` | strings as sequences of characters; how texts, times and numbers are shown |
| `json` | JSON values as a tree of plain values, and the calls into `serde_json` |
| `block`, `event`, `record` | what is stored of one line of a transcript |
| `import` | what is stored of a file, which files are read again, what a run has done |
| `db` | the statements that clear, drop and migrate tables |
| `fts` | the full-text expression for what a user typed |
| `query` | what is asked of the database, and how the answers look on a terminal |
| `url`, `serve` | request targets, routes, and the answers of the web interface |

The public proof functions whose names start with `law_` state what holds of the library as a whole:
that no line is lost, that a raw transcript gives the file back, that only changed files are read
again, and so on.

`app/` is the program around the library: arguments, files, the database and the web server. It
reads, hands plain values to the library, and writes or sends what comes back.

`tests/` runs the library, with the real `serde_json` behind it.

## Commands

| Command | Description |
| --- | --- |
| `cch import` | Scan JSONL files and load them into SQLite. Unchanged files are skipped. |
| `cch sessions` | List sessions, newest first. |
| `cch search <query>` | Full-text search across all content. |
| `cch show <session>` | Print a full transcript with every type clearly marked. |
| `cch stats` | Counts by record type, content-block type, tools, and tokens. |
| `cch serve` | Launch the web UI to browse and search history in a browser. |
