# agent_works

Building blocks for agents on top of `agent_base`, verified with Verus.

- `src/` is the library. Every function states what it returns or changes over
  mathematical values (`Seq<char>`, `JsonV`, views of the data types), and the
  proof functions named `law_*` state what holds of several of them together.
- `tests/` runs the library on concrete values.
- `app/` is the part that reads, writes, sends and waits: files, processes,
  sockets, model calls and the traits of `agent_base`. It asks the library what
  to do, does it, and hands back what came of it.

| module        | what it decides                                                   |
|---------------|-------------------------------------------------------------------|
| `guard`       | whether a turn ends a run, goes on with a nudge, or needs a judge |
| `compression` | when a conversation is compacted, what is summarized and reported |
| `memory`      | names, files and index of memories, and the steps that keep them  |
| `mcp`         | the MCP protocol, as a server and as a client, and hubs of servers |
| `focus`       | focused questions to a model and progress summaries               |
| `builtin`     | the file tools and the paths they may touch                       |
| `cli`         | what events print and what typed lines mean                       |
| `builder`     | what an agent is built from                                       |
| `handle`      | where inputs go and how a run's end is reported                   |
| `text`, `json`, `events`, `error` | the values the others work on                 |

What is taken on trust is the contract of each function marked
`external_body` and of each `assume_specification`; its comment names the
function of std, `serde_json`, `serde_yaml` or `dirs` that stands behind it.
