# jevon

The verified core of `jev`, the command line for the TypeSafe API, written in
Verus.

`src/` holds the decisions the commands make and proves them:

- `layers` — the workspace's layer table and `layer_of`, the forbidden and
  exclusive crate tables, with the tables' laws (no crate listed twice, every
  layer populated, no forbidden crate a member).
- `source` — which item source a command reads (`resolve`), and dropping blank
  inline items (`inline`).
- `classify` and `classify_laws` — how per-item results fold into a run's
  report (`Classified::of`, `exit_code`), with the laws of that fold:
  per-question uncertainty counts, the reported model versions, and the exit
  code.
- `eval` — what can be checked of a labelled set before any question is asked
  (`check`, `smaller_side`), which questions an eval asks (`question`, one per
  wording in `questions`), how the replies fold (`gather`), and how many
  items went unanswered (`unanswered`).
- `asking` — which question set a command asks, from its flags
  (`question_set`).
- `label` — a known answer as the JSON value it arrived as, compared the way
  `serde_json` compares values.
- `counts`, `json`, `usage`, `ask` — the map of counts behind the report, the
  JSON values results carry, token counts, and the `ask` command's shapes.

`app/` holds what Verus does not take: the command definitions for the CLI
framework, the client and the network, reading files and standard input, the
serialisable copies of the report types, and the probability arithmetic
(AUC, cut-offs, spread, confidence thresholds), which is floating point.
