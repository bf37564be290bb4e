# axonmq

An MQTT 3.1.1 / 5 broker whose core is verified with Verus.

`src/` is the verified library:

- `mqtt/protocol/` — the wire format: fixed header, variable byte integers,
  properties, CONNECT, CONNACK, PUBLISH and its acknowledgements, SUBSCRIBE,
  UNSUBSCRIBE, DISCONNECT, and the per-connection codec. Decoding is specified
  against byte sequences; encoding is proved to decode back (see the
  `lemma_*_roundtrip` proofs).
- `mqtt/listener/` — what a connection does with each packet from its client
  (topic aliases, QoS 1/2 exchanges), the rules it applies between packets
  (keep alive, message expiry, what a published message turns into) and the
  per-client store of messages in flight, which stays within its limits.
- `mqtt/server.rs` — the broker's session state machine: connect, subscribe,
  unsubscribe, disconnect, wills, stored messages and the periodic clean-up, each
  given as a step from state and command to next state and actions.
- `mqtt/retain_trie.rs` — retained messages by topic, with expiry.
- `operator/` — the topic-filter trie, the matcher (which subscribers a message
  goes to, shared subscriptions round robin, with a per-topic cache) and the
  router (which processing chains a message goes through).
- `cli.rs` — the requests that the command-line tool's commands make.

`app/` is the program around the library: configuration file, logging, the TCP
listener, the per-connection and broker tasks and the channels between them.
