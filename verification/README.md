# fvfs

A virtual filesystem over three storage tiers: a local disk (hot), a NAS on the local
network (warm) and an object store (cold, and the source of truth). One daemon owns the
tiers; clients reach it over HTTP or through a FUSE mount.

The library under `src/` is verified with Verus. It holds the decisions of the system and
performs no input or output: an operation is a value that names one request after another
(`action::Action`) and takes the answer to each (`action::Event`). The programs under
`app/` carry the requests out. What is floating point is decided there too: the eviction
score of a file, which reaches the library as an integer that orders in the same way, and
the weights and the interval of eviction in the configuration.

| Modules | What they hold |
|---|---|
| `path`, `tier`, `types`, `error`, `text`, `digest` | values: normalized paths, tier masks, entries, errors, content hashes |
| `router` | write, read, delete, stat, list, mkdir and evict across the tiers |
| `wal_replay`, `s3_uploader`, `transfer`, `promotion` | the write-ahead log, its replay, uploads, promotion to the local disk |
| `eviction`, `eviction_task` | ranking of files and the watermark-driven eviction cycle |
| `migrate` | taking existing files in, once per content |
| `metadata` | rows of the metadata store, directory listings |
| `local`, `s3`, `local_cache` | where a path lies on a disk, in a bucket, in the client's cache |
| `http_api`, `http_client`, `mdns`, `report`, `config`, `setup` | requests, addresses, discovery, reports, settings |
| `fuse`, `fuse_daemon` | inode numbers and system calls of the two mounts |
| `world`, `guarantees`, `recovery`, `faults`, `masks`, `totals` | a model of tiers, metadata and log, and what holds of the operations in it |

`app/` is one program: named `fvfsc` it is the client (`mount`, `ls`, `cat`, `put`, `rm`,
`status`, `wal`), under any other name the daemon (`serve`, `migrate`, `status`).
