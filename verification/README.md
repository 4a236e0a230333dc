# archive

A verified library for extracting downloaded archives into one directory, and for keeping
the folding ranges of an editor up to date. It is written in Rust with Verus contracts.

## Layout

- `src/` is the library. It decides and does no I/O: what stands on the disk, what a write
  came to, and what an archive holds are handed in as plain values.
- `app/` reads and writes: it asks the disk, runs the zip, tar and gzip readers, downloads,
  and does what the library says.
- `tests/` runs the library, against the standard library's paths and against known digests
  among others.

## What is stated

- Paths (`path_text`, `path`): components, joining, prefixes and parents of Unix paths.
- Directories (`archive_dir`, `walk`): a path is accepted exactly if it lies below the
  directory and no symlink on the way leads out; an entry whose name is absolute or climbs
  goes nowhere.
- Zip archives (`zip`, `zip_extraction`): what is written for each entry, in which order,
  and that all of it is led to a place inside the directory.
- Tar archives (`tar`): whatever is neither a file nor a directory leaves no trace;
  directories are created last, below the directory and never through a symlink that leads
  out. One whose path climbs is left out.
- Downloads (`digest`, `download`): a download is accepted exactly if the SHA-256 digest of
  everything written is the one expected.
- Folding ranges (`folding_ranges`): which buffers are asked about and which are
  cleared, and that a later refresh takes the place of an earlier one.

Laws that relate several functions are the public proof functions named `law_...`.

## What is trusted

Calls into `async_zip`, `async_tar`, `sha2` and `itertools` stand in small functions marked
`external_body`. The comment above each says what is claimed of the call.
