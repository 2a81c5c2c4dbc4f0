# cerebro_tidex

The decision core of a laboratory that compiles capabilities into receiver
models, written in Verus.

`src/` is the library. It decides and proves; it reads no file and computes with
no floating-point number. A procedure that alternates decisions with outside work
(numerical routines, digests, file access) is a function from its inputs and the
outcomes gathered so far to the next step. The caller performs the step, adds the
outcome and asks again, until the step is a failure or a result. Floating-point
numbers are carried by their IEEE 754 bit patterns and compared exactly.

- `checkpoint_adapter`, `checkpoint_inspection`: SafeTensors headers, confinement
  of files, inventories, and the inspection that binds a receiver to its bytes.
- `receiver_compiler`, `receiver_portability`, `universal_capability_compiler`:
  compilation, held-out evaluation, receipts, plans and their replay.
- `low_rank_shadow_materializer`, `shadow_materializer`: candidates that are
  studied beside a receiver and never activated.
- `universal_shadow_runner`, `controls`: what an evaluation bundle reports.
- `lab_*`, `acquisition`, `tidex_cli`: roots, names, suites, policies, documents
  and the course of a laboratory run.
- `scalar`, `text`, `order`, `paths`, `json`, `identity`, `error`: the vocabulary
  that the rest is stated in.

`tests/` runs the library. `app/` holds the programs: they read and write files
and talk to the numerical engine, a program of its own that `TIDEX_ENGINE` names.
