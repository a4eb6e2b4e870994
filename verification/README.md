# kitewright

Browser automation for agents: an MCP server that drives Chromium (`kite`), a render service
that turns HTML, URLs and Typst templates into PDF (`kite-pdf`), and Node.js bindings over the
same engine.

The library in `src/` holds what these programs decide and compute, with contracts that Verus
proves. The programs in `app/` do the rest: they talk to the browser, the network and the disk,
hand plain values to the library and carry out what it answers.

## Layout

| Module | What it holds |
| --- | --- |
| `text`, `json`, `paths`, `ip` | texts, JSON values and their text, paths, addresses |
| `engine`, `session` | lifecycle of the browser and of a session's page |
| `nav`, `selector`, `wait`, `keys`, `page` | navigation rules, selectors, waiting, keys, page results |
| `ax`, `snapshot` | accessibility outlines and their differences |
| `capture`, `storage`, `secrets` | console and network buffers, saved state, secrets |
| `install`, `archive` | the browser download and its extraction |
| `pdf`, `request`, `render`, `service` | printing options, render requests, the render service |
| `guard`, `tools`, `cli`, `node` | HTTP guard, tool payloads, command lines, Node.js options |

Functions named `law_...` state what holds of the library as a whole.

## Edges

A few functions call other crates or std functions that have no specification: the string
literals of JSON texts and the parsing of documents (`serde_json`), URLs (`url`), archives
(`zip`), key definitions (`chromiumoxide`), base64 (`base64`) and some of std's text functions.
Each is a small function whose doc comment says what is taken for granted. Floating point stays
at the edges: the library keeps numbers as they were written and compares scale factors by their
bits, so it writes the arrays and objects of JSON texts itself.
