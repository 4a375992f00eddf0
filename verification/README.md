# archigoat

The rules of ArchiGoat's local Work engine, written in Verus and proved against their
contracts: one accepted Work becomes exactly one verified end.

`src/` is the verified library:

- `work_state/` — the durable Work table (`store`), its listings, follow-up steering,
  repair and attention, protected tool outputs, restart persistence (`restore`), the
  driver's pauses (`drive`) and per-turn decisions (`turn`), and what a Start, a follow-up,
  a Stop or a completion is answered (`outcome`).
- `journal`, `observer`, `runner` — the runner journal's frame format, how an observer reads
  it, and how the Windows runner frames its Provider's output.
- `egress` — redaction of machine paths and private literals, and the delivery gate.
- `envelope`, `request`, `runtime`, `evidence`, `receipt` — what a launch delivers (the
  launch plan, native instructions left out of a stored request, Cursor's attachment paths),
  the request and its identities, verified delivery facts, and receipt names and digests.
- `json` — a JSON value one level deep, read and written by serde_json.
- `shell`, `preview`, `release` — the desktop shell's request gates, deep-link handoff,
  product previews and release replacement.

`app/` is the ordinary Rust around it: reading and writing the Work state file, gathering
what a restore needs from disk (input files, staged follow-up bytes, the frozen delivery
manifest and its files), and reading a runner journal.

`tests/` runs the library on concrete values.
