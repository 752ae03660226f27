# yarp

yarp shortens the output of development commands before a coding agent reads it, and keeps the
exact output in an archive so that it can be searched and read again.

The library under `src/` holds the decisions, and Verus proves each of them against its contract:

| Module | Contents |
| --- | --- |
| `rule_pack` | Rules, their validation, and the compiled pack format |
| `rules` | Selection of a rule from the built-in and external packs |
| `reducers` | Streaming reduction of output within bounded memory |
| `shell`, `rewrite` | Conservative shell parsing, wrapper commands and result plans |
| `result_reducer` | Reduction of results after a command has run |
| `archive`, `archive_query` | Stored calls and payloads; search, matching and reading |
| `archive_protocol`, `archive_broker`, `archive_client`, `archive_runtime`, `frames` | The local protocol between clients and the broker that writes the archive |
| `config`, `cli` | Settings and the command line |
| `bytes`, `text`, `numbers`, `digest`, `order` | Shared helpers |

`app/` is the program around the library: files, sockets, SQLite, processes and serialization.
`tests/` runs the library on concrete values.

Calls into other crates stand behind small trusted functions, each with a doc comment that says
what its contract claims.
