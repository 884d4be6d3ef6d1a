# oso

The verified core of the oso boot loader and of the build-time tools around it,
written in Verus.

- `src/` is the library; Verus proves its functions against their
  `requires`/`ensures` contracts:
  - `elf/`: the ELF64 file header, program and section headers, string and
    symbol tables, the dynamic section, hash tables, and the memory layout of
    the loadable segments;
  - `uefi.rs`, `guid.rs`, `status.rs`: UEFI memory descriptors, page counts,
    GUID text, status codes and the status code tables;
  - `readelf/`: reading the reports of `readelf -h` and `readelf -l`, and the
    header values they describe;
  - `font.rs`, `naming.rs`, `dom.rs`, `tree.rs`, `integer.rs`, `graphic/`,
    `parser/`, `macro_input.rs`, `html.rs`: font bitmaps, crate and type names,
    the status code page (its markup parsed and rebuilt as a document tree, and
    its tables read), tree walking, decimal digits, frame buffer configuration,
    and what the code generators read from their input;
  - `strs.rs`, `text.rs`, `bytes.rs`, `error.rs`: the text and byte helpers
    and the error type they share.
- `tests/` runs the library on concrete inputs.
- `app/` is the part that touches the machine: running `readelf`, reading files
  and crate directories, fetching the status code page, emitting code, the UEFI
  boot services and drawing. It hands plain values to the library and acts on
  what comes back.
