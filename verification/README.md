# xenstore-win

Xenstore client for Windows guests, talking to the xeniface driver.

- `src/` is the verified library:
  - `payload`: the NUL-terminated string payloads of store requests and
    replies, with the laws that tie building and reading them together;
  - `ioctl`: the driver's I/O control codes;
  - `store`: decoding of read and directory replies, and the C-string path of
    a watch request;
  - `multiplex`: the multiplexer's registry of the active device, store
    watches and suspend registrations, and the worker's decisions;
  - `device`: the walk over the present device interfaces.
- `app/` is the Windows plumbing around it: device handles, I/O controls,
  configuration manager notifications, the worker thread, the `Xs` and async
  traits of `xenstore-rs`, and WMI helpers. It builds for Windows targets only.
- `tests/` runs the library on concrete values.
