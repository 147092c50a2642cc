# albion_packets

Capturing and decoding Albion Online network traffic: the Photon Protocol 18
wire format, the Photon packet layer with fragment reassembly, and the
Albion operations and events carried in it.

The library under `src/` is verified with Verus. Each reader and decoder is
specified against a mathematical model of the format (`src/wire.rs` for
values, `src/parser.rs` for packets), and the properties the code keeps are
stated as proof functions next to it.

- `wire` – the Protocol 18 format as spec functions over byte sequences
- `cursor` – the byte cursor and the primitive readers
- `deserializer` – decoded values and the value readers
- `parser` – commands, reliable messages and fragment reassembly
- `capture` – the transport payload of a captured frame
- `devices` – which network interfaces a capture listens on
- `convert`, `structs`, `ops`, `decoder` – Albion operations and events from parameter tables
- `inspector` – what the packet inspector does with each message before decoding it
- `achievements` – the achievement levels of a snapshot and their JSON text
- `utils` – character ids and code normalization

`app/` holds the program around the library: live capture with `pcap`,
the inspector's output, and the achievement export. It reads the operation
and event codes of the running game version from a JSON file
(`inspector <codes.json>`); with `--export-achievements <codes.json>
<achievements.json>` it waits for an achievement snapshot and writes the
levels to `specs_export.json`, the table being a JSON array of
`[name, level]` pairs indexed by achievement id.
