# mosaic

Mosaic runs Android apps on a Linux host. This crate is its library: the
decisions and data formats the host side rests on, written in Verus and
proved against their contracts.

## Layout

- `src/` — the verified library.
  - `binder/` — the userspace Binder plane: parcels, the handle table, the
    wire format between the broker and its clients, the hosted services and
    the broker that routes transactions between processes.
  - `broker/` — the package registry and the per-app users it hands out.
  - `device/` — the device services the host answers for (display,
    installd, health, suspend, SurfaceFlinger, APEX, id mapping).
  - `config/` — the configuration file: defaults, reading and writing.
  - `helpers/` — LXC configuration, Android properties, GPU selection,
    mounts, versions, image channels and the other small rules the runtime
    follows.
  - `actions/`, `args.rs`, `guest.rs` — what the command line's actions
    decide.
  - `text.rs`, `octets.rs` — the text and byte encodings the rest is stated
    over.
- `app/` — the host program around the library: the command line, files,
  sockets and the services as Binder objects. It is ordinary Rust and is not
  verified.
- `tests/` — tests of the library on concrete values.

Calls into `sha2` and `hex`, and the few `std` functions the library needs
without a specification in `vstd`, stand behind small wrappers whose
contracts are trusted; everything else in `src/` is proved.
