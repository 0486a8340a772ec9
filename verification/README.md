# ragd

A local retrieval-augmented generation daemon: point it at a directory, and it
indexes the text files in it, keeps that index up to date as files change, and
answers natural-language questions about the content over a small HTTP API. It
talks to whatever OpenAI-compatible embeddings and chat-completions endpoints it
is given.

The decisions the daemon makes are a library, written in Verus and proved
against contracts; the program around it performs them.

## Layout

`src/` is the library.

| Module | What it covers |
| --- | --- |
| `text` | lines, joining, ASCII case, numbers, over the characters of a string |
| `chunker`, `chunk_laws` | splitting a file along its syntax or by line and size budgets |
| `config` | command line, environment and defaults |
| `error` | the error type, its messages and HTTP statuses |
| `db`, `db_laws` | records, chunk keys, SQL filters, and what a merge does to a table |
| `columns` | Arrow arrays, schemas and record batches, by what they hold |
| `batches`, `batch_laws` | records to and from record batches |
| `store` | the requests made of the vector database |
| `resource` | which files are indexed, content hashes, the indexing lifecycle |
| `indexer`, `index_laws`, `scan_laws` | indexing one file, step by step, and whole runs over a resource |
| `gitignore`, `watcher` | nested `.gitignore` files, and reconciling changed paths |
| `openai_client` | model requests and replies |
| `server`, `server_laws` | registering, removing, listing and querying resources |

The modules named `*_laws` state what holds across functions: that unchanged
content is not embedded again, that after a scan each file is stored as exactly
its chunks, that a merge replaces exactly one file's chunks, that reading a
batch gives back what it was made of, that names in the registry stay unique,
and so on.

Embeddings and scores are carried as the bit patterns of single-precision
numbers: nothing in the library computes with them.

`app/` is the program: LanceDB, HTTP in both directions, the file system and its
watcher, and the tasks that drive the library's state machines.

`tests/` runs the library on concrete values.
