# paqus_node

The rules of a full node of the Paqus proof-of-work network, verified with Verus, and a program
around them.

`src/` is the library. Everything that a node decides or computes stands there with a contract:

- `order`, `sorted_map`, `key_map`, `text`: ordered keys, maps with a mathematical view, texts.
- `ids`, `params`, `transaction`, `chain`, `template`: what the rules speak of. Hashes, sizes and sums
  that the encoding of a transaction or a block determines are plain fields.
- `mempool`: pending transfers and bearer-coin transactions; what is admitted, for how long, and what
  a block is made of. `mempool::laws` holds what is true of the pool as a whole.
- `cache`, `node`: the state that answers are made from.
- `miner`, `mining`: candidate blocks and the search for their proof of work.
- `network`: messages, their frame, and the answers to peers.
- `sync`: headers, blocks and parallel downloads, and what is remembered of peers.
- `gossip`, `gateway`, `service`, `command`, `rpc`: spreading news, the gateway, the life of a node,
  its command line and its explorer.

A function that needs what the protocol crate computes takes the outcome as an argument or asks for it
through a closure; its contract says what is asked and what follows from each answer.

`tests/` runs the library on concrete values. `app/` is the program: files, sockets, threads, HTTP, and
the protocol crate.
