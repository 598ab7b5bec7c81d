# gcsf

A virtual file system that mounts a Google Drive account through FUSE.

The crate is split in two:

- `src/` is the verified library, checked by Verus. It holds the local file
  tree (`file_manager`, with its mathematical model in `tree`), the naming of
  files that share a name (`suffix`), filling the tree from Drive and applying
  Drive's changes (`sync`), the answer to each FUSE request (`filesystem`),
  the in-memory content store (`fetcher`), the settings (`config`), the
  OAuth helpers (`auth`) and the properties that span several operations
  (`laws`).
- `app/` is the program around it: the command line, the configuration file,
  the Drive REST client, the OAuth login and the FUSE adapter. It hands the
  library plain values, makes the Drive calls the library asks for, and
  replies to the kernel.

`tests/` exercises the library from outside.
