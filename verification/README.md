# rustafarian_network

A simulated source-routed network: drones forward packets, clients and
servers exchange messages split into fragments of 128 bytes.

- `src/` is the verified library (Verus): the packet model (`packet`),
  splitting messages into fragments (`network::deassembler`) and putting
  them back together (`assembler`, with the round-trip law in
  `reassembly`), the decisions of client and server nodes
  (`network::client`, `network::server`, `server`), and the wiring of the
  network from its configuration (`network::network_initializer`).
- `app/` is the program around it: it reads the configuration file, opens
  the channels, starts the drone threads, and runs the receive-and-send
  loops of the nodes, converting between the protocol's types and the
  library's model of them.
- `tests/` exercises the library on concrete values.
