# tdisk

A small client for an object-storage bucket ("private network disk"): it uploads a
local file as a multipart upload and downloads objects back.

- `src/` is the library, verified with Verus: request signing (`sign`), the layout of
  every request (`request`), the multipart-upload bookkeeping (`upload`), the
  CompleteMultipartUpload body (`xml`, `escape`), reading the upload id out of the
  service's reply (`reply`), file names of object paths (`path`) and decimal numbers
  (`text`).
- `app/` is the command-line program around it: configuration file, clock, HTTP with
  `reqwest`, files and progress bars.
- `tests/` runs the library on concrete values.

`Cargo.toml` names `console` although no code calls it: indicatif 0.16.2 accepts any
console below 1.0 without its default features, and the console 0.16 that this
resolves to then lacks the `std` feature indicatif needs; naming console 0.16.6 with
its default features makes indicatif build.
