# gemini_acp

An agent for the Agent Client Protocol whose answers come from the Gemini web
service, and an HTTP server that offers the same answers in the formats of
OpenAI, Codex and Google.

`src/` is the library: what is decided and computed, written in Verus, with
contracts that are proved.

| module | what it holds |
| --- | --- |
| `text`, `json`, `record` | texts and JSON values, with their models; JSON texts read part by part |
| `gemini` | cookies, authorization, models, the frames of the service |
| `client` | the requests, one attempt at an answer, uploads, retries |
| `prompt` | the prompt, its history, a turn as a state machine |
| `thought` | reasoning and answer, told apart in a stream |
| `lifecycle`, `session`, `options`, `elicitation` | the sessions and what a client is answered |
| `settings`, `agent_config`, `queue` | settings files, the environment, a closable queue |
| `web2api` | the endpoints of the server |
| `outside` | what is taken from other crates, with the contracts that are relied on |

Statements about several functions at once are proof functions whose names begin
with `law_`.

`app/` is the program around it: the transports, files, timers and sockets. It
performs what the library decides and hands back what came of it. Sessions are
kept in files of its own, and the one tool that it offers the model is to ask the
user a question.

`tests/` runs the library on concrete values.
