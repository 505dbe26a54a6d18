# openshell-driver-lxd

A compute driver that runs OpenShell sandboxes as LXD virtual machines.

- `src/` is the verified library (Verus). It holds the driver's rules and
  state: LXD instance names and their sanitizing, percent-encoding, the
  paths, bodies and headers of LXD requests, how LXD answers are read,
  cloud-init rendering, the sandbox registry, and the decisions of create,
  stop, delete and watch. Each public function states its result in its
  contract; the laws of the library are public proof functions.
- `app/` is the program around it: command-line parsing, logging, the
  HTTP exchanges with LXD over its Unix socket, JSON encoding and decoding,
  and the loops that wait and poll. It makes no decision of its own.
- `tests/` runs the library on concrete values.
