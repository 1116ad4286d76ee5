# theseus

The decision logic of a Minecraft launcher's backend, written in Verus and
proved against its contracts: what a dropped file is, which releases an
instance upgrade should pick and why, how downloads are split, routed and
validated, how locking processes and server ports are read from tool output,
how the Google Translate address pool is ranked, and how the Terracotta,
server, update and import helpers decide.

- `src/` is the verified library. Every public function states its result
  in `ensures`; the public `proof fn`s state the laws that span functions.
  Calls into outside crates (`sha2`, `urlencoding`, `url`, `chrono`, `zip`)
  and the few std calls vstd does not specify stand behind small
  `#[verifier::external_body]` wrappers whose doc comments say what is
  assumed of them.
- `tests/` runs the library on concrete values.
- `app/` is a small command-line front end: it reads files, runs the
  system's tools and hands their output to the library.

`src/upgrade/` holds the upgrade planner: candidates and catalog, the order
in which projects are loaded, the release order, the backtracking search,
the rankings of solutions and their materialization into a plan.
`src/upgrade/search_spec.rs` states the search as a mathematical function
(`spec_search`): which assignments it reports and in which order, how many
states it visits and which dead end it explains first; the executable
search is proved equal to it, and its laws say that, short of the state
limit, it reports exactly the assignments that complete its start node.
