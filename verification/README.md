# codex-proxy

A local, OpenAI-compatible proxy in front of the ChatGPT/Codex backend. It serves
chat completions and responses, keeps responses on disk when a client asks for
it, replays kept conversations for `previous_response_id`, passes other `/v1/*`
calls on to the OpenAI API, and logs what goes through it.

The library under `src/` holds the proxy's rules and is verified with
[Verus](https://github.com/verus-lang/verus). The program under `app/` listens,
sends, reads and writes files, and calls the library for what to do. What serde
reads by a derived reader is read there and handed in: chat requests, credentials,
and the files of kept responses, of which the library itself reads those that are
as it wrote them.

| Module | What it holds |
| --- | --- |
| `text`, `json`, `order`, `paths`, `ids`, `headers` | the ground the rest stands on |
| `sse` | lines out of chunks, data out of lines |
| `models`, `tools`, `chat_request` | a chat request and what is sent on for it |
| `chat_events`, `chat_stream`, `chat_completion` | the answer, piece by piece or whole |
| `response_store`, `history`, `responses` | kept responses, conversations made of them, and the stream that brings new ones |
| `passthrough`, `upstream`, `auth` | other calls, how the backend is addressed, credentials |
| `request_logger`, `log_rotation` | what is logged, and which logs are removed |
| `config`, `server`, `replies` | settings, the program's menu and lists, error replies |

Facts that relate several functions are public proof functions whose names begin
with `law_`. What the proofs take on trust from outside crates is declared where
it is used: each such function is marked `external_body`, or is an
`assume_specification`, and says in its comment what is claimed of which outside
function.
