# psy

A process supervisor. `psy up` starts a root, a session that owns a table of
processes. Through its socket the root takes requests to run, stop, restart and
query them.

`src/` is the library, verified with Verus. It holds what the supervisor decides:

- Psyfiles: `psyfile`, `platforms`, `ports`, `order`, `shell`, `schema`, `toml_value`
- the root: `root` and the modules below it, one for each kind of request
- processes and their logs: `process`, `recipe`, `ring_buffer`, `logs`, `lines`, `pattern`
- probes: `probe`
- the wire: `protocol`, `json`, `api`, `client`, `mcp`
- the terminal: `cli`, `tables`
- the operating systems: `platform`, `cleanup`
- helpers: `text`, `time`, `names`, `marks`

`app/` is the program around it: the command line, sockets, child processes, the
MCP server on stdin and stdout, and the API for hosts that embed a root.

`tests/` runs the library on concrete values.
