# avro_core

A verified engine for Avro Phonetic, the keyboard layout that writes Bangla
from roman keys (`ami` → `আমি`, `k,t` → `ক্ত`).

- `src/` is the library, verified with Verus:
  - `types.rs` — outputs, conditions and their meanings;
  - `trie.rs` — the rule trie (an arena of nodes, each with a hash map of
    its children) and its map view;
  - `rules.rs` — character classes, rule conditions, output resolution and the
    conversion of pending keys (`flush_from`);
  - `engine.rs` — the typing engine (keystrokes, backspace, commit, preedit)
    and dictionary suggestions, with their specifications;
  - `grammar.rs` — grammar patterns and their conversion into rule outputs;
  - `dict.rs` — the word and suffix dictionaries read from JavaScript sources;
  - `laws.rs` — properties proved of the whole engine;
  - `text.rs` — small string helpers.
- `app/` is the terminal front end, the JSON reading of grammars, the fcitx5
  C ABI with the overlay broadcast, and the overlay's message reader.
- `tests/` holds the tests.
- There is no WebAssembly front end. Its bindings would rest on the
  wasm-bindgen attribute macros, and the engine has no single call that loads
  a grammar and both dictionaries from source texts: a front end builds the
  engine with `AvroEngine::from_grammar`, `load_dict` and `load_suffix_dict`,
  as `app/sources.rs` does for the terminal and fcitx5 front ends.
- The JSON copies of the grammar types in `app/grammar_json.rs` convert both
  ways, so that a grammar held in the library's types can always be given back
  in its JSON form.
