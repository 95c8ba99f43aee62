# insomnilog

An asynchronous logging library whose hot path never blocks: log arguments
are encoded as bytes into a per-thread single-producer/single-consumer queue,
and a backend thread decodes, formats and writes them to sinks.

The library (`src/`) is written in Verus, and Verus proves its functions
against their contracts, with these exceptions:

- A few calls into std are trusted, not proved: `core::str::from_utf8`,
  `String::push`, `Duration::from_micros` and `Duration`'s clone,
  `Mutex::new`, and the store that clears a thread's liveness flag. Each
  is a small `external_body` wrapper or `assume_specification` whose doc
  comment says what it claims.
- Values held in std atomics (a logger's level, the queues' cells and
  positions, the backend's counters) carry no meaning for Verus. So
  `Logger::level` and `Logger::set_level` have no value contract, and the
  queues' contracts cover positions and lengths, not the bytes themselves.
  That bytes read back as written is proved over a model of the ring
  (`ring::lemma_read_back_after_later_writes`).
- `CustomEncode` is implemented by users; what it returns is stated in
  terms of whatever its methods give back.

Multi-byte values on the wire are little-endian on every platform, and
pointer-sized fields (a record's callsite address, a user-defined value's
decoder token) always take eight bytes.

| Module             | Contents                                                              |
|--------------------|-----------------------------------------------------------------------|
| `level`            | `LogLevel`, its wire byte and label                                   |
| `bytes`            | little-endian and two's-complement byte arithmetic                    |
| `encode`           | `TypeTag`, the `Encode` trait, user-defined (`CustomEncode`) values   |
| `record`           | the 24-byte `RecordHeader`                                            |
| `decode`           | decoding arguments and records, `LogRecord`, argument text            |
| `text`             | building strings: characters, decimal numbers                         |
| `metadata`         | `LogMetadata`, the static data of a callsite                          |
| `formatter`        | `PatternFormatter`: pattern parsing, padding, message substitution    |
| `ring`             | power-of-two ring arithmetic shared by the queues                     |
| `queue2`, `queue`  | the SPSC byte queues (doubled buffer; wrap with waste)               |
| `per_thread_queue` | the producer/consumer halves with their liveness flag                 |
| `logger`, `sink`   | `Logger`, `NullSink`, the sink level filter                           |
| `backend`          | `BackendOptions`, the first-come registries of sinks and loggers      |
| `backend_runner`   | the worker's shared state, record reading and loop decisions          |
| `rotation`         | the rotation plan of session log files                                |
| `legacy`           | the first-generation encoding interface over the same wire format     |

`app/` holds the runtime around the library: the `Sink` trait and the
console and file sinks, the worker thread, the process-wide `start` /
`shutdown`, the thread-local producers and the logging macros.
