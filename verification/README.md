# quo_client

The logic of the Quo variable dumper's desktop client, verified with Verus.

Client libraries post every dumped variable to a small HTTP endpoint on the
developer's machine; the client lists the dumps, lets the user search, group,
diff and open them in an editor.

- `src/` — the verified library: payload rendering (`formatter`, `snippet`,
  `highlight`, `timestamps`), the endpoint's routing and answers (`server`),
  settings (`config`, `settings`, `themes`), the dump list (`dumps`,
  `display`, `diff`), editor integration (`editors`), notices (`toast`),
  release checks (`version`) and events (`events`).  Calls into rustfmt,
  syntect, similar, itertools and chrono stand behind small trusted wrappers
  whose contracts are stated next to them.
- `tests/` — tests of the library on concrete values.
- `app/` — the process around it: the HTTP server, the settings file, running
  editor probes and the JSON forms of the library's types.
