# codex_web_search_mcp

A Model Context Protocol server, over standard input and output, with three tools that do not
depend on the model of the client:

- `codex_web_search` searches the web through the Codex search service;
- `codex_web_research` searches, opens pages, finds text in them and follows links, over several
  calls that share a session;
- `web_fetch` fetches a page and gives its plain text.

What the server decides and computes is a library verified with Verus, under `src/`. The program
under `app/` reads and writes, sends requests and waits.

| module | what it holds |
|---|---|
| `server` | what is answered to a message, and what must be done first |
| `commands` | the commands that a search or a research asks for |
| `backend` | one call of the search service: requests, tries and waits |
| `auth` | the credentials and their renewal |
| `results`, `citations` | the answer of the service: its sources, its text |
| `render` | the text that a tool answers with |
| `html`, `charset` | the plain text of a page, and its encoding |
| `patterns` | the regular expressions, and what they match |
| `tools`, `session`, `logging` | the list of tools, the session, the switch of the log |
| `json`, `text` | values and strings |

## Credentials

Either `codex login`, which writes `~/.codex/auth.json`, or the environment variable
`CODEX_ACCESS_TOKEN`, with `CODEX_ACCOUNT_ID` where there is an account. An expired token of the
file is renewed once where the file has a refresh token.

`CODEX_ENDPOINT` and `CODEX_REFRESH_ENDPOINT` set other addresses; `CODEX_MCP_LOG=debug`, or
`--verbose`, turns on a log on standard error.

## What is proved

Each function says in its contract exactly what it returns. Laws over several functions are public
proof functions, among them:

- a call sends at most four requests, waits at most a second and a half, renews a token at most
  once, and ends;
- a failure that is not worth trying again ends the call at once;
- sources are told apart by reference or address, none is lost, and each domain is named once;
- a cleaned text holds no private use character;
- a page with its markup blanked holds no tag, nor does the plain text of a page without `&`, and
  three line feeds never stand in a row in a plain text;
- a research with an operation says how long the response shall be, `long` unless told otherwise;
- the switch of the log is fixed when it is first asked;
- a page in valid UTF-8 reads the same whatever encoding it declares;
- stored tokens are read back, and nothing else in the file changes;
- a request with an identifier is answered, with that identifier.

What is believed of `regex`, `encoding_rs` and the standard library stands in `patterns`, `charset`
and `text`, in the contracts of the functions that make the calls.
