# codeatlas

codeatlas reads a Java / Spring / MyBatis / Dubbo project and turns it into an
index that answers one question: *what does this system do, and where?* It
extracts symbols, routes, tables, message topics and history, groups them into
business domains, traces entry points to the tables they touch, and writes the
result as Markdown pages, a full-text index and an MCP server. Optionally a
language model narrates each domain from an evidence pack; what it writes carries
its status, and an insight is not indexed until a person has confirmed it.

The logic is a Verus library: each function states in `requires` / `ensures`
what it computes, and Verus proves it. Reading files, running git and curl,
SQLite and the command line are ordinary Rust around it.

## Layout

| Path | Holds |
| --- | --- |
| `src/extract/` | probes: Java syntax trees, MyBatis, Spring, Dubbo, Maven, properties, SQL, git logs |
| `src/build/` | resolving calls, types and mapper statements across files; entry points |
| `src/structure/` | business domains (`domain`) and call paths to tables (`trace`) |
| `src/llm/` | evidence packs, prompts, the model client and the deepening run |
| `src/insight.rs`, `src/search.rs`, `src/mcp.rs` | proposed knowledge, the index, the server |
| `src/render.rs`, `src/render/` | the pages |
| `src/store/`, `src/sync.rs` | the data model and the cache's rules |
| `src/text.rs`, `split.rs`, `path.rs`, `lists.rs`, `number.rs`, `textmap.rs`, `idmap.rs` | text, paths and ordered maps |
| `src/json.rs`, `pattern.rs`, `extract/syntax.rs`, `extract/xmlutil.rs` | the calls into serde_json, regex, tree-sitter and quick-xml |
| `app/` | the `catlas` program |
| `tests/` | tests, run with the real outside crates |

## What is proved

Every public function says what it returns for every input. Beside these
contracts stand laws that relate several functions, as public proof functions,
among them:

- folding new commits into a cached history gives what walking all of it gives
  (`extract::git::fold_is_full_walk`);
- a reported call path is a real chain of calls, and within the bounds of the walk no
  table is reported by a longer chain than the shortest that leads to it
  (`structure::trace::walk_is_sound`, `shortest_routes_reported`);
- a curated path beats the vote, and a note follows its domain's key from build to
  build (`structure::domain::curated_beats_vote`, `notes_follow_their_key`);
- a table belongs to one domain, and folding spelling variants loses no file
  (`structure::domain::one_owner`, `folding_keeps_total`);
- refreshing the generated block of a memory file keeps the prose round it, and
  doing it twice changes nothing (`render::claude_md::prose_is_kept`,
  `splice_is_idempotent`);
- no message to the MCP server confirms an insight
  (`mcp::no_path_to_confirmation`);
- the credential reaches curl unchanged and never on its command line
  (`llm::client::credential_is_kept`, `key_stays_off_the_command_line`).

What is believed without proof is the behaviour of the outside crates at the
marked wrappers; the doc comment of each names the function it calls and says
what is claimed of it.

Votes, shares and means of domain assignment are floating-point and are
computed in `app/domains.rs`; the decisions taken on them are in
`structure::domain`.
