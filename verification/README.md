# zngur

Reading `.rdep` dependency descriptions of Rust types, and the choices the
zngur code generator front end makes from its settings, verified with Verus.

- `src/rtype.rs`: type descriptions (`Rtype`), their crate (`crayte`) and
  their printed text (`string_output`).
- `src/grammar.rs`: the grammar of a type description and its reader
  (`parse_ty`); `src/grammar_laws.rs`: what reading and printing have to do
  with each other (every type read is well formed; printing what was read
  gives the text with its function groups removed).
- `src/rdep.rs`: reading an `.rdep` text line by line (`RdepParser`,
  `ParsedTypes`).
- `src/builder.rs`: the generator settings (`Zngur`), the namespace and
  mangling base they give, and moving the generated C++ into the namespace.
- `src/type_sizes.rs`: reading the type sizes that `rustc -Z print-type-sizes`
  reports.
- `src/text.rs`, `src/replace.rs`: lines, characters, slices and replacing;
  `src/line_laws.rs`: a final line feed and carriage returns before line
  feeds do not change the lines of a text.
- `app/`: the command line, file and process I/O, the JSON layout file, and
  the calls into the generator.
