# nous_memory

The verified core of a memory retrieval and authority service, written in Verus.
Every public function in `src/` carries a contract that Verus proves, and Verus
checks every function there; the few calls into
outside crates (`roaring`, `blake3`, `uuid`, `reqwest`'s URL parser) sit behind
small trusted wrappers whose contracts restate what those crates document.

## Layout

- `src/` — the library.
  - `refs`, `seeds`, `exact`, `families` — cognitive references, seed and evidence
    vocabularies, exact-target hits and the families a candidate is credited with.
  - `accessibility`, `time`, `recall_budget`, `capabilities` — age-based
    accessibility and eligibility, time intervals, recall budgets, and how capability
    requirements refuse or degrade a query.
  - `postings`, `bitmap`, `candidates`, `posting_lane` — exact postings over
    compressed bitmaps, per-candidate lane evidence, and the budgeted posting lane.
  - `objects`, `bundle` — content addressing, streamed uploads and reads, bundle
    checks and identifier remapping.
  - `authority`, `lifecycle`, `consolidation`, `cycles`, `expansion`, `graph`,
    `models`, `segments`, `text` — stored vocabularies, admission rules of the
    service's operations, processing runs, consolidation support, cognitive-cycle
    marks, bounded graph expansion, topology integrity, model response checks, and
    text segmentation.
  - `admission`, `formation`, `recall_results`, `fallback`, `evidence_order` — which
    results a query's targets, class, time and source constraints admit and how
    evidence hits are appended, checks on observed mentions and
    formation proposals, the score-free decisions of a recall, the substring
    fallback, and the order of lexical evidence.
  - `purge` — replayed operations, the scope a purge may take, and which affected
    memories are deleted or regenerated.
  - `wave_nodes` — the integer structure of a wave graph build: node ordinals, edge
    keys, and how edge evidence is classified.
- `tests/` — executable tests of the library.
- `app/` — what stays outside verification: serde wire forms, clock and JSON
  conversions, file-system object storage, serving snapshots, and the
  floating-point retrieval kernels (residual sensing, spreading activation, wave
  graph conductances and propagation, the EPA basis, candidate ranking, wave
  scores).
