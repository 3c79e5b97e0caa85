# steelbx

Disposable podman boxes for unsupervised workloads: the layout of a box
comes from its image, its policy from one profile.

- `src/` is the library, written in Verus: profiles (expansion, shape,
  selection), podman argument vectors, the reading of podman's answers, the
  work that takes several calls (create, remove, enter), and the decisions of
  the command line. Every function is verified; laws across functions are
  public proof functions (`law_...`) at the end of each module.
- `app/` is the program around it: the command line, files, the environment,
  and podman itself.
- `tests/` run the library on concrete values.

What the library takes from outside is stated, not proved, in a few places:
`src/table.rs` (`indexmap`), `src/json.rs` (`serde_json`), `src/error.rs`
and `src/text.rs` (std).
