# conll_tools

Tools for preparing CoNLL-X and CoNLL-U corpora, with their logic verified.

- `src/` is the verified library. Each tool's rules are a module with
  contracts over sequences and maps: `de_iob` (IOB named-entity features to
  entity and chunk features), `ne_iob` (entity annotations with identifiers
  to IOB tags), `tag_split` (combined part-of-speech tags), `topo`
  (topological fields), `advmod` (relabelling dependency relations),
  `merge_ner` (lining up gold and predicted entities), `dedup` and `shard`
  (lines by their SipHash), `block_filter` (dropping blocks with replacement
  characters or HTML) and `europarl` (reading Europarl XML as a state
  machine). `features` holds the feature maps and `text` the string helpers.
  `sip` and `patterns` hold the calls into `siphasher` and `regex`.
- `app/` is the command-line program: argument handling, reading and
  writing corpora with `conllx`, `conllu` and `xml`, and compressing shards.
  The first argument names the tool.
- `tests/` runs the library on concrete inputs.
