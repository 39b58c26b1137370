# Knowledge observer

A background observer for a coding agent. It reads the transcript of a session as it
grows, lets an agent of its own extract decisions, facts, observations and open questions
from it, and keeps them as a graph of scored evidence beside the project. What is known is
told again at the start of the next session.

The library (`src/`) is written in Verus: every function states what it returns. The
statements are proved, but for those of the small functions marked `external_body`, which
call other crates and std: what these say of the call is believed, and the comment above
each says what that is. The program (`app/`) reads and writes files, talks over sockets,
starts processes and does the floating-point arithmetic of scores.

| module | what it holds |
| --- | --- |
| `store` | the graph, its operations, filters, scoring, file formats and per-session state |
| `observer` | what a pass over a transcript reads, asks for and applies; the daemon's decisions |
| `dispatch`, `ipc` | requests to the store and the replies to them |
| `mcp`, `cli`, `view` | the tools, the hooks and the viewer |
| `config`, `project` | layered settings and the project's directory |
| `laws` | what holds across requests |
| `wire` | what replies, graphs and lists are as JSON |
| `json`, `record`, `text`, `score`, `seqs` | values, texts, scores and sequences |

Three promises that hold for every input: a link or a merge that would close a cycle is
refused, so that no request makes the graph cyclic; a graph that is saved is read back as
it was, unless a line of a node's statement is the separator; and nothing that the tools
can ask for changes what the graph knows.

The environment variable `OBSERVER_HOST` names the program that is observed. It is the
command that runs the observer's agent, and with a dot before it the directory in which a
project keeps its settings (`observer.json`) and, unless set otherwise, its knowledge.
