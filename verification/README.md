# provisioning-proxy

A proxy that connects clients in a guest, which reach it over vsock, to servers on TCP. A policy
file lists the servers that may be connected to and how many bytes each may be sent in all.

- `src/` is the logic, verified with Verus: the policy (`policy`), the notation of addresses (`ip`,
  `connection`), the connection protocol (`conproto`), the setup of a connection (`connection`), the
  relay (`stream_helpers`) and what the program decides as it starts (`startup`, `cid`). The modules
  whose names end in `_laws` state and prove what holds of the whole.
- `app/` is the program: arguments, logging, files, sockets and threads.
- `tests/` runs the library.

A policy file is a JSON list of rules:

    [{"address": "example.com", "port": 443, "tx_bytes_limit": 1024}]
