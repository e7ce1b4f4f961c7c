# treelite-rs

A verified library for loading tree-ensemble models and checking the integer
side of their prediction, written in Verus.

`src/` is the library; every function in it carries a contract that Verus
proves:

- `lightgbm/` parses LightGBM text models (tokenizer, typed per-tree fields,
  objective aliases and postprocessors) and plans every tree node by node:
  the renumbering of the negative-index leaf encoding in the order of a
  right-child-first stack walk from the root, numerical and bitset
  categorical splits (with the bitset decoder and its concatenation law),
  the `default_left` override when missing values read as zero, and the
  model metadata.
- `sklearn/` validates scikit-learn tree arrays (outer counts, per-tree
  dimensions, child indices), decodes the packed HistGradientBoosting node
  records and their categorical bitsets, and fixes the metadata of each
  estimator family.
- `gtil/` holds the integer bookkeeping of the prediction engine: input
  validation, CSR row materialization (absent features read as missing, not
  zero), the output layout and its cell routing, the tree-averaging counts,
  checked access to node columns, output shapes, and postprocessor names.
- `harness/` holds the equivalence harness's decisions: `NaN` token
  normalization, manifest drift, the `statm` resident-size reading, and the
  memory report (rendered from its rows, read back and merged per
  allocator).
- `text.rs` and `search.rs` are the shared character and search utilities.

`app/` is ordinary Rust around the library: the floating-point traversal,
accumulation and postprocessors, the calls into the model builder, JSON
parsing with serde, file I/O, and the floating-point cells of the reports. `tests/` exercises the
library from outside.
