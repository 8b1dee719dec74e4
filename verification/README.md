# logic_paint

The core of Logic Paint, a painter for MOSFET-level integrated circuits, written in Verus with
its behaviour stated as contracts and proved.

- `src/brush.rs`: the painting brush, from input events to the strokes it paints.
- `src/coords.rs`: cell, chunk and local coordinates and the conversions between them.
- `src/upc.rs`: the 4-byte per-cell format that buffers hold.
- `src/utils.rs`: rectangular cell selections.
- `src/module.rs`: modules attached to a running circuit (clock).
- `src/session.rs`: session strings, the `LPS1:` tag followed by the base64 text of the
  compressed session bytes.
- `src/substrate/`: the cell model (`atom`, `placement`, `normalized_cell`), the painting rules
  on normalized cells (`buffer_brush`), chunked cell buffers (`buffer`, `buffer_delta`), their run-length codecs (`codec`) and compressed storage
  (`buffer_serde`), compiled circuits and their simulation (`integrated_circuit`, `simulation`,
  `pin`, `execution`), the bit-packed circuit format (`serializer`) and input state (`io`).
- `tests/`: tests of the library on concrete values.
- `app/`: a command-line front end that reads and writes the stored formats and session
  strings, and steps a circuit's simulation.
