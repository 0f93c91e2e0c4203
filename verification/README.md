# typelude-tooling

Verified tooling for inspecting how the Rust trait solver evaluates typelude's type-level
programs: solver traces, goal trees and their filters, definition graphs of type aliases and
impls, the links between the two, type-expression rendering, and compiler profile summaries.

- `src/` is the library. Every function in it is verified by Verus against its `requires` /
  `ensures` contract; laws that relate several functions are public proof functions (for
  example `solve_filter::filter_goal_tree_idempotent`, `definition::view_has_one_result`,
  `definition::viewing_a_view_again_keeps_it`, `expr_laws::parse_reads_back_formatted`,
  `lowering::lowering_reads_back_two_sided_predicates`).
- `tests/` runs the library on concrete inputs.
- `app/` is the command-line front end: argument parsing, file and process I/O, JSON
  (de)serialisation and floating-point figures, which stay outside the verified library.
