# zenoh_flow_perf

Performance tests of Zenoh-Flow: benchmark nodes (latency, throughput,
scalability), a capture analyzer that measures the overhead of the Zenoh
protocol, and comparison programs on ERDOS.

- `src/` is the verified library, checked by Verus:
  - `framing`: splitting a Zenoh TCP stream into length-prefixed frames;
  - `capture`: reassembly of the Zenoh sessions and scouting datagrams of a capture;
  - `stats`: the message statistics and overhead of a session;
  - `encoding`, `data`: the bincode encoding of the benchmark payloads;
  - `config`, `nodes`: node settings, key expressions, locators and node decisions;
  - `report`: the CSV records that the benchmarks print;
  - `runtime`, `time`: descriptors, startup order and timestamps.
- `app/` holds what is not verified: the analyzer's pcap reading and protocol
  decoding, the Zenoh-Flow nodes and runtime, and the ERDOS programs.
- `tests/` exercises the library.
