# dpcp

A host-central port broker for working directories. The library under `src/`
holds its rules, each with a contract that Verus proves:

- `request` reads the services that ask for ports;
- `allocate` and `collect` decide, one question at a time, what to do with the
  allocation table and the host; `table` states what whole runs make of the table;
- `probe` decides whether a port is bound; `release` names what is released;
- `envfile` and `interpolate` write the environment file;
- `display`, `hostname`, `listing` and `glob` make what is printed;
- `ipv6`, `text` and `strmap` are what the others stand on.

One call is taken on trust: `str::to_uppercase`, in `request`.

The program under `app/` does the work that the rules ask for: the command
line, `dpcp.yml`, the database, the file system and the network.
