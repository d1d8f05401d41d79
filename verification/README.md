# IF_DATA parsing for A2L files

A verified reader of the IF_DATA blocks of A2L (ASAM MCD-2 MC) files.
An IF_DATA block is read according to an A2ML specification where one fits
(the one built into the program first, then the one in the file), and
generically otherwise, so that its data is kept in any case.

- `src/tokens.rs`: the tokens the reader works on.
- `src/number.rs`: the grammar of integer and floating point literals.
- `src/parser.rs`: the parser state and the readers of single tokens, each
  with a spec function over the tokens (`Input`) and the cursor (`Cursor`).
- `src/a2ml.rs`: A2ML types and the generic data, with their views.
- `src/ifdata_spec.rs`: what reading an IF_DATA block does, as spec functions.
- `src/ifdata.rs`: the reader, proved to do what `ifdata_spec` says.
- `src/ifdata_laws.rs`: laws of reading by a specification (what reading
  depends on, where sequences and tagged structs stop, the flag of
  `parse_ifdata`).
- `src/wellformed.rs`: well-formed specifications (unique names, sequences
  of elements that always read a token), their checks, and the proof that
  reading with them always ends.
- `src/structure.rs`: structurally sane content, and the proof that such a
  block is always read.
- `src/a2lfile.rs`: the elements of a file that carry IF_DATA blocks, and the
  removal of the blocks that no specification could read.
- `app/lib.rs`: the floating point values of numbers kept as text.
