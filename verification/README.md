# zc

The command line tool of the Zakuro runtime: it pulls, tags and restarts the
Zakuro containers, reads its configuration script into the environment,
finds this machine's address in the cluster and summarizes the Spark master.

- `src/` is the library, verified with Verus. It computes what the tool does:
  the shell commands of each command (`manager`, `common`, `cli`), the
  reading of the configuration script and the expansion of path lists
  (`envs`), the handling of a finished process (`exec`), the cluster address
  (`network`), the Spark master's page and its summary (`spark`), and the
  string operations these rest on (`text`). The HTML page and the JSON status
  are parsed by `soup` and `serde_json` behind trusted wrappers.
- `app/` is the program around it: arguments, processes, files, the HTTP
  request, the network interfaces, colours, and the memory sums, which are
  decimal numbers.
- `tests/` runs the library on concrete values.
