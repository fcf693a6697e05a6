# seqterm

The core of a terminal music sequencer, written in Verus. The functions in
`src/` carry contracts that the verifier proves, except a few small
functions marked `external_body` (a slice of one element, a
character pushed onto a string, a number's bytes in machine order, a path's
extension and path equality, and the calls that parse a Standard MIDI File
with `midly`) whose contracts state what the standard library documents or
name what the parser reads, and are taken on trust.

- `rational`, `rational_ord`, `arith`: exact musical time as reduced fractions, with the gcd
  facts behind their normal form.
- `note`, `pattern`, `edit`, `euclid`, `markov`, `mpe`: notes and step
  patterns, their exact event timing and window scanning, editing, Euclidean
  rhythms, Markov chains, MPE channel allocation.
- `matrix`, `arrangement`, `clip_ids`, `project`, `demo`: the session
  matrix, the rational-time arrangement and the uniqueness of its clip ids,
  project vocabulary and the demo content.
- `sched`, `firing`: the sequencer clock's decisions (note queues, routing,
  MIDI messages, song mode) and the plan of each clip's hits on a master
  step (groove timing, Euclidean and probability gates, channel, notes).
- `midi`, `midi2`, `router`, `smf`, `midi_import`, `import`, `export`,
  `musicxml`: MIDI 1.0 and 2.0 messages, routing, Standard MIDI File
  reading, importing a file as rows of shared pattern slices, writing a
  session as a type-1 file, and the MusicXML score.
- `crdt`, `merge`, `history`, `edits`: collaboration clocks, registers and the operation log,
  three-way merge, undo/redo and the undoable edits of patterns and clips.
- `channel`, `granular`, `sf2`, `automation`, `modulation`, `pad`,
  `plugin_au`, `fluid`, `command`, `persistence`, `text`: mixer, sampler
  and instrument vocabulary, commands, file naming and recent files.

`app/` holds what stays outside the verifier: file I/O, the
real-time clock loop and the pass that looks up each enabled clip and sends
its planned notes where the library routes them, session edits resolved by
key, JSON and UUID forms of collaboration data, and the computations that
depend on floating-point rounding.
