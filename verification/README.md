# tifflin

Verified pieces of the Tifflin kernel, written in Verus.

- `src/string.rs` — the kernel's owned `String` and the buffer-backed
  `FixedString`; both hold UTF-8 bytes, modelled as their byte sequence.
- `src/vfs.rs` — VFS handles: opening, upgrading to a directory, the
  memory-map permission and alignment rules, and the directory iterator.
- `src/iso9660.rs` — ISO9660 detection, the volume descriptor scan done at
  mount time, and the directory record reader.
- `src/video.rs` — the native console's framebuffer (blits) and the
  keyboard logic that turns pressed-key sets into press/release events.
- `src/arch.rs` — amd64 hooks: init, the timestamp, the frame walker.

Reads from storage, node lookups and the host window are done by the
caller; the library's state machines say what to read next and decide what
the bytes read mean. `app/` holds the host glue (window, threads, inline
assembly).
