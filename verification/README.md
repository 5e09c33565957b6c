# rabbitmq_stream_client

A client for RabbitMQ streams. The library under `src/` holds its logic without input or output, with
contracts that Verus proves; the crate under `app/` connects it to sockets and tasks.

- `handshake`: the opening of a connection, answer by answer.
- `connection`, `client`: a connection that ends with a farewell, and the client on top of it.
- `client2`: the client whose connection is closed once and for all, with its heartbeats.
- `routing`, `receive`: who gets a response, and what an answer comes to.
- `publishing`: messages and the identifiers under which they are published.
- `stream_creator2`, `metadata`: the creation of streams, and the brokers that hold them.
- `codec`: requests become frames and frames become responses. `frames` and `layout` say what the
  frames look like, `message` what the messages of a delivery look like, `walk` how far the parts of
  either reach, `wire` what numbers, texts and tables look like, `sizes` whether a request fits into a
  frame.
- `protocol`, `pending`: the calls into `rabbitmq-stream-protocol`, `bytes` and `dashmap`, with the
  contracts that are taken from those crates without proof.

Those who wait for an answer are numbers to the library. It says which of them gets a response; the
application keeps the channel that belongs to the number.
