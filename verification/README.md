# bioswarm_engine

A multi-agent research engine: a swarm of agents searches and writes about a
query, the run is checkpointed after each agent, and the results become a
report exported as Markdown, JSON, HTML and CSV.

- `src/` is the library, written in Verus: resolving a run's settings,
  keeping outputs in name order, deduplicating them by content digest,
  scoring, the executive summary, the report texts, the bookkeeping of a run
  and of a resumed run, and the decisions of the search and generation
  clients. Each function states its behaviour as a contract; the laws that
  span functions are proof functions named `law_*`.
- `app/` is the command-line program around it: the SQLite store, the HTTP
  clients, the files, and the concurrent run of the agents.
- `tests/` exercises the library on concrete values.

## Notes on the layout

- Results are kept in `keyed::NameMap`, a vector of `(name, value)` entries
  whose names ascend strictly (a type invariant), in place of a
  `BTreeMap<String, _>`. vstd's specifications of `BTreeMap` hold only for a
  key type whose `Ord` obeys vstd's comparison specification, and vstd gives
  `String` none, so a `BTreeMap<String, _>` would leave every lookup and
  every ordering claim unproved. `NameMap` orders names as `str`'s `Ord`
  does (byte-wise, which for `char` sequences is code-point order) and proves
  its lookups and its iteration order.
- The REST server (`bioswarm-server`, an `actix-web` service with `/health`
  and `/api/v1/swarm/run`) is not part of this crate. Its run handler calls
  `RuntimeConfig::load` with seven arguments where the function takes
  eleven, so it does not build as written; the program in `app/` is the
  command-line binary alone.
- The tool-call branch of an agent's run is not carried: the source that
  it would follow calls `generate_with_tools`, `ToolCallRequest`,
  `deduplicate_search_results` and `AgentFailure`, none of which is defined
  anywhere. The library still states what that branch would decide
  (`run::search_tool_queries`, `run::sources_prompt`), but `app/` calls plain
  generation only.
- The JSON replies of the search and model services are read field by
  field in `app/` (`search::RawField`, `search::RawSearchItem`); which field
  wins, the defaults and the errors for a missing `results` array or a
  missing first `choices[0].message.content` are decided in `src/`
  (`search::results_from_response`, `search::reply_content`).
