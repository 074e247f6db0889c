# organize

Rule-driven file organisation. The decisions the tool makes are written in
Verus and proved against their contracts:

- `src/` is the verified library: which rules run (`config`), how layered
  options combine (`options`), what the filters let pass (`filters`), where an
  action puts a file and how a naming conflict is resolved (`actions`,
  `conflict`), how batches are selected, grouped and split (`batch`), the
  variables and templates that values come from (`variables`, `templates`,
  `providers`), a virtual file system used for dry runs and tests (`vfs`), and
  the history of what was done (`backup`). Paths and text are modelled as
  sequences of characters (`path`, `text`); `~` and `$NAME` in configured
  paths are expanded from values the caller gives (`expand`).
- `app/` is the part that touches the disk, the environment and the user: it
  reads what exists, hands plain values to the library, and carries out what
  the library decides.
- `tests/` exercise the library on concrete values.

Calls into Tera, `regex`, `mime`, `mime_guess`, `rand`, `uuid`, `chrono` and
`path-clean` stand behind small trusted wrappers whose doc comments say what
is assumed of them.

The virtual file system keeps its entries in a list, at most one per path
key (a type invariant), rather than in a concurrent map such as
`dashmap`, which is not among this crate's dependencies; each entry records when it was made and last
changed, read from the system clock.
