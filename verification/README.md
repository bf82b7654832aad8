# brushkit

A verified reader of brush files. It reads Photoshop `.abr` packs (versions 1, 2, 6, 7, 9
and 10) and Procreate `.brush` and `.brushset` archives, and gives the tip of every brush in
them as a gray bitmap, as a thumbnail or on a contact sheet.

- `src/abr`: packs. Header, blocks, sampled tips, presets, patterns, the pairing of tips
  with presets, deferred decoding, and a raw dump of descriptors. `laws.rs`, `cut.rs`,
  `order.rs` and `ordinals.rs` hold what is true of packs as a whole.
- `src/preview`: previews. Decoding of images within limits, archives, the entries of a
  preview and the memory that they may hold, computed tips, contact sheets. `laws.rs` holds
  what is true of previews as a whole. The calls into other crates stand in `codec.rs` and
  `archive.rs`; `sampling.rs` tells apart the JPEG files that zune-jpeg has no room for.
- `src/fixture.rs`, `src/round_trip.rs`: writers of descriptor items, and proofs that what
  they write is read back.
- `src/support`: byte reading, text, and the arithmetic of doubles in integers.
- `app`: the parts in floating point (the pixels of computed tips, labels in a font), errors
  with `Display`, a dump with `Serialize`.

Numbers of a descriptor are kept as the bits of a double. Scaled sizes and lumas are computed
in integers, exactly as double arithmetic rounds them.
