# misojisho

A Japanese-to-English dictionary built from the JMdict XML file, written in
Verus: the library in `src/` carries contracts that Verus proves, and the
command-line program in `app/` reads the file and the user's query.

- `text` — character-level string operations (search, split, replace, trim,
  number parsing), each proved against a short specification.
- `part_of_speech`, `use_frequency` — the meaning of JMdict `<pos>` and
  `<ke_pri>` codes.
- `conjugations` — conjugation tables for Ichidan, Godan and irregular verbs.
- `jp_to_english_dictionary` — the dictionary and its search: which words a
  query finds and the one order in which they are shown.
- `parser` — grouping a file's lines into entries and reading each entry into
  a word.
