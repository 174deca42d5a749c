# minisnap

Minimal snapshot store for durable state managers. A snapshot is a full copy of
the application state with a logical sequence number. Each one is a numbered
file of its own, written to a temporary file and atomically renamed; the latest
is restored.

- `src/` is the verified library. It decides what has to be done on the disk
  and in which order, names the files, finds the latest one and maps the
  errors. It does no I/O. `src/disk.rs` states what a reader sees while
  snapshots are stored, what a crash leaves, that what was stored is what is
  restored, and that a failed attempt changes nothing of it.
- `app/` puts it on the file system: blocking tasks, temporary files, paths as
  the system writes them and the `serde` codecs.
- `tests/` runs the library against a disk in memory.
