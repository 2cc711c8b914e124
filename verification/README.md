# mDNS Lite

A lightweight implementation of Multicast DNS (mDNS), verified with Verus.

## Layout

- `src/protocol/`: the wire format. Flags, header, names, queries, responses
  and packets, each with a model and a proof that what is written reads back.
- `src/dns.rs`: plain DNS names held as label lists, with their queries and
  responses.
- `src/service/`: services that can be announced (validation of instance
  names, service types and domains; TXT records kept in a `heapless` map;
  the announcement packet).
- `src/responder.rs`: the responder's decisions: the service registry, the
  answer to each question, the reply to a packet, the announcement interval.
- `src/text.rs`: UTF-8 helpers.
- `app/`: sockets, polling, the broadcaster thread and logging.
- `tests/`: tests of the library.
