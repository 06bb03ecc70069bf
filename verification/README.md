# webhook

A server that captures webhooks. It takes HTTP requests of any method on any
path, keeps their metadata and bodies on disk, answers as it is configured to,
and shows what it captured on administration pages.

`src/` is the library: what the server decides and computes, with contracts
that Verus proves. `app/` is the server around it: the network, the disk, the
clock, the command line, and the files that serde reads and writes.

| Module | What it holds |
|---|---|
| `text`, `urls`, `size`, `time`, `table`, `order` | text, percent-encoding, sizes, points in time, ordered tables, stable sorting |
| `outside` | the calls into other crates, and what they are taken to do |
| `config` | the configuration, its faults, and the rules for a path |
| `headers` | header lines: what is recorded of them and read from them |
| `body`, `capture`, `models` | the taking in of a body, the record of a request and its summary |
| `response` | the answers to captures |
| `segments`, `storage`, `records` | directory names, file paths, listings and statistics |
| `retention` | what a cleanup removes |
| `auth`, `sessions`, `admin` | signing in and out, and the routes of the administration |
| `pages`, `templates` | the administration pages |

Proof functions whose names begin with `law_` state what holds across
functions: that a record stays below the storage root, that a session lasts a
day, that a body file is kept as long as its metadata is there, and so on.
