# pow-service

A service that computes proofs of work for nodes. Clients submit tasks to a proxy over HTTP; the
proxy hands them to workers over TCP, keeps the results and answers for them.

- `src/` is the library: the messages and their framing (`messages`), the proxy's and the
  workers' decisions (`tasks`), the client's side of a task (`remote`), the search for a proof
  (`proving`), the rows of the result database (`db`) and the texts that name tasks (`text`).
  Every function has a contract that Verus proves; what is believed of other crates is stated at
  the functions that call them.
- `app/` is the program around it: sockets, HTTP, Redis, SQLite and the command line.
- `tests/` runs the library on concrete values.
