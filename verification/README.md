# suli_pona_toki

A parser for suli pona toki, a head-final dialect of toki pona in which every
grammatical function is a particle attached to the end of a word, together with
`skp`, a command that turns a text with embedded markup into HTML.

The library is verified with Verus: each public function states in its contract
what it computes, over spec functions that describe the grammar.

- `src/lexicon.rs`: the vocabulary and the table that splits a written word into
  prefix, root, suffix and second suffix.
- `src/tokens.rs`: the tokenizer, one character at a time.
- `src/content.rs`: content phrases and their head-final trees (`pi`, `no`, `un`,
  `nu`).
- `src/preposition.rs`: prepositional phrases.
- `src/sentence.rs`: subjects, objects, verbs, and whole sentences with context
  and apposition.
- `src/html.rs`: rendering sentences as markup.
- `src/transpile.rs`: the byte-by-byte state machine of the transpiler.
- `src/text.rs`: character and string primitives.
- `app/main.rs`: the `skp` command: arguments, files and streams.
