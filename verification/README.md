# cp-with-usrbio

Copies files from a local disk or NFS to a 3FS file system. The bytes go through
shared memory and the user-space I/O rings of 3FS.

`src/` is the core of the copier, written and proved in Verus. It decides and
computes; it performs no I/O.

| Module | What it holds |
|---|---|
| `ring` | chunks, completions, ring options, the actions that a copy asks for, and its errors |
| `worker_pipeline`, `worker_laws` | the copy loop of a worker, and what it guarantees over any ring that plays by the rules |
| `pipeline`, `pipeline_laws`, `pipeline_order_laws` | the copy loop with a buffer for each file, and what it guarantees over a ring that reports the oldest requests first, and over any ring where the buffer holds the file |
| `depth` | how many requests are kept in flight |
| `worker_context`, `copier` | how a file is copied by a worker and by itself; how a worker takes its tasks |
| `path`, `path_laws`, `path_set`, `text` | paths, sets of paths, text |
| `task`, `task_laws` | the files to copy, and the comparison with their copies |
| `progress` | the progress of a copy, and how a copy goes on where another one stopped |
| `shm_manager`, `shm_laws`, `utils` | shared memory and block sizes |
| `session` | whether a copy can begin, how memory is divided, and what happens to files that fail |

The proof functions whose names begin with `law_` state what holds of the modules
as a whole.

`app/` is the program around the library: arguments, files, shared memory, threads
and rings. It needs the `hf3fs-usrbio-sys` binding, which is built against a 3FS
tree. `tests/` runs the library, with simulated rings among other things.
