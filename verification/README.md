# hayleyfs

A file system for persistent memory whose core is verified with Verus.

The device is modelled as a table of inodes, a table of page descriptors
and the pages they describe (directory pages of fixed-size entries, data
pages of bytes). Every change to the device goes through handles whose
types record how far the change has got, so that an inode loses a link
only after the entry naming it was cleared, and a page is reused only after
it was taken apart.

Modules under `src/`:

- `defs`, `pm`, `typestate`: layout constants, error codes, the device
  model and the states of the handles.
- `inode`, `dentry`, `page`: handles on inodes, directory entries and pages.
- `sorted`, `volatile`, `allocator`, `bitmap`: ordered maps, the in-memory
  indexes of directories and files, and the page and inode allocators.
- `fs`, `mount`: the state of a mounted file system, formatting, mounting
  (rebuilding the indexes and allocators from the device), attributes,
  statistics and eviction.
- `recovery`: after a crash, zeroing the inodes in use that no live entry
  reaches from the root.
- `namei`, `file`: creating, linking, looking up, listing, removing and
  renaming names; reading and writing file contents.
- `kernel`: the operation tables handed to the kernel.
- `ramfs`: the decisions of a file system kept in memory only.

The tests under `tests/` run the verified code on concrete devices.
