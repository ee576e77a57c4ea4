# lini

The chart attribute readers, the annotation readers and the npm packaging
logic of the Lini diagram compiler, as a verified Verus library.

- `src/values.rs`: resolved attribute values, attribute maps, errors.
- `src/axis.rs`: axis readers (`range:`, `ticks:`, `step:`, `scale:`,
  `side:`, `gridlines:`, `unit:`) and what a value reads as on an axis.
- `src/annot.rs`: `|band|` and `|mark|` placement.
- `src/binary64.rs`: recognising a whole count among binary64 bit patterns.
- `src/chart_text.rs`: chart text roles and their weights.
- `src/assets.rs`: the host's asset table in a browser.
- `src/package.rs`, `src/size.rs`, `src/bundle.rs`, `src/strs.rs`: the
  package manifests, the `wasm-bindgen` check, byte sizes for people, the
  order of the build steps, and the text scanning they rest on.
- `app/`: the build command (files, processes), the rectangle geometry and
  the data window, which are floating-point, and the JavaScript side of the
  asset table.
