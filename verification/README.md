# matrix_gen

A multi-agent social simulator whose conversations are turned into
instruction-tuning data, written in Verus with its logic proved.

- `src/` is the verified library: agents, memory, prompts, the round-robin
  simulation step and its laws, routing modulators, in-process oracles,
  synthesis requests and reply handling, the integer and text side of
  homophily clustering, and the configuration of network-backed oracles.
- `tests/` exercises the library on concrete values.
- `app/` is the command-line program: file and network I/O, JSON decoding,
  the asynchronous loop that asks the oracle each turn, and the
  floating-point embedding and K-means arithmetic.
