# trovato_site

The logic of the trovato.rs website, verified with Verus: its colour tokens
and contrast annotations, the documentation mirror's manifest, link rewriting,
generated records and markdown rendering, the code-block markup, the config
round-trip comparison, and the site plugin's access, listing and date
decisions.

- `src/` is the library. Every function in it is verified; the calls into
  outside code stand behind small trusted wrappers whose contracts say what
  that code is relied on for: pulldown-cmark (parsing markdown and writing its
  HTML), syntect (lexing a code block), uuid (the v5 digest),
  serde_yml (reading a YAML document and writing one), serde_json (reading a
  query's rows and building JSON values), and std's `String::push`, which
  vstd gives no contract.
- `tests/` runs the library against concrete inputs.
- `app/` is the program around it: reading and writing files, fetching the
  documents, the host's query, the floating-point contrast ratio, and the
  plugin's SDK glue.
