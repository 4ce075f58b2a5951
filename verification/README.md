# laya-candle

The decision logic of a runtime for the Laya family of calibrated decision models, verified
with Verus. Everything that decides what the model reads and which checkpoint answers is in
the library under `src/`, each public function with a contract that Verus proves:

- `pyjson`, `ascii`, `readback`: JSON rendered exactly as Python's `json.dumps` and `repr`
  render it, the proof that `ensure_ascii` output is pure ASCII, and the proofs that a JSON
  parser reads the string and integer literals back as the values written.
- `question`, `state`: questions, their option texts and validation; states and their text.
- `sequence`, `tokenizer`: special tokens resolved through the vocabulary, and the token
  layout of one question (`[CLS] head [SEP] [MASK] opt … [SEP] state [SEP]`) under the head
  and context budgets, with its laws (markers point at `[MASK]`, rise and lie inside the sequence, which fits the budget).
- `lang`: script detection (the dominant script, ties to the script seen first and Latin
  last; `unknown` exactly when there are no letters) and the stopword language guess.
- `router`: routing precedence, typed-decisions workflows, least-recently-used residency
  (never a repeat; what `preload` names all stays resident) and grouping of batches by
  checkpoint.
- `agent`, `batch`: budgets, validating and tokenizing every request up front (the first
  failing question reported with its request), packing sequences into forward passes, padding
  a pass into the rectangles the model reads, the sliding-window attention pattern, token
  usage.
- `checkpoint`, `config`, `collections`, `text`, `json`, `error`: names, temperature buckets,
  layer kinds, the `indexmap` and Unicode wrappers, and the shared types.

`app/` is the program around it: the `laya` command line, loading checkpoints from disk, the
ModernBERT encoder and decision head on candle, calibration of the logits, and the serde wire
format.

`tests/` runs the library on concrete values.
