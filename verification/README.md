# slate

Converts between serialized data formats, renders Tera templates, and generates systemd units and
Podman quadlets.

- `src/` is the library. Everything it decides and computes is stated in contracts and proved with
  Verus: which format is read and written (`variants`, `plan`), how deep a document may nest
  (`nesting`), how declarations become systemd services and timers (`systemd`), how a compose file
  is prepared (`env`, `tree`, `substitution`, `service`, `compose`, `paths`), how podlet's output is
  read and tuned (`quadlet`), how units are printed and written (`formats`, `output`), and what is
  asked and run to activate them (`activation`, `utils`). Functions whose names start with `law_`
  are proofs of what holds of the library as a whole.
- `src/outside.rs` and `src/documents.rs` hold the calls into other crates. Their contracts are
  believed, not proved.
- `app/` is the program: the command line, files, processes and dialogs.
- `tests/` runs the library on concrete values.
