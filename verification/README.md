# ladybug-adbc

Arrow Flight / ADBC columnar interface for LadybugDB. A Flight server runs
Cypher against LadybugDB and hands out the results as Arrow batches over gRPC;
clients fetch them as a plain command or as a prepared Flight SQL statement.

`src/` is a library verified with Verus. `app/` holds the programs round it:
the gRPC service, the client, the benchmarks and the health probe, with the
calls into LadybugDB.

| module         | what it holds                                              |
|----------------|------------------------------------------------------------|
| `text`         | trimming, searching, UTF-8, decimal numbers                |
| `varint`       | base-128 integers                                          |
| `wire`         | the fields of a protobuf message                           |
| `any`          | the `Any` wrapper with its type URL                        |
| `statement`    | the messages of the prepared-statement handshake           |
| `query`        | finding the query in a descriptor or ticket                |
| `handle`       | the handles of prepared statements                         |
| `cache`        | the bounded cache of prepared statements, oldest out first |
| `table`        | results as Arrow tables, and their size                    |
| `schema`       | the IPC form of a schema                                   |
| `server`       | what the server decides and keeps between requests         |
| `client`       | what a client sends, step by step                          |
| `demo`         | the demo graph and the demo queries                        |
| `json`         | Arrow cells, row by row                                    |
| `net`, `bench` | addresses and probes; how benchmark work is spread         |

What is proved: each message that is built is read back as it was meant; a
query is run as the same text whether it is sent plainly or prepared first; a
prepared statement stays until it is closed or until 512 newer ones were
prepared; a closed statement is no longer known.

What is trusted: functions of the standard library that search, trim and decode
texts, and the calls into `uuid`, `arrow` and `arrow-flight`. Each stands in a
function of its own whose comment says what is claimed of it.
