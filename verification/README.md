# rapira

The verified core of an application server that embeds PHP: the exchange
lifecycle between a worker and its front, response framing, header rules, worker
bookkeeping and the decisions of the HTTP front. The library is written in Verus;
each function states in its contract what it returns or changes, and Verus proves
it.

## Layout

- `src/respond.rs`, `src/verbs.rs`: the response verbs of an exchange. A verb
  plans the frames it owes, then offers them to the channel one by one; a full
  channel interrupts it, and it is resumed later. `src/respond_laws.rs` states
  what holds of every response, in every history of calls, and
  `src/stream_laws.rs` what a whole run of calls puts on the stream.
- `src/frames.rs`: the response stream.
- `src/channel.rs`, `src/sending.rs`: the channel it travels on, and the log of
  what was offered to it. Only an offer to the channel gives an answer, and only
  answers go into the log.
- `src/exchange.rs`, `src/request_graph.rs`, `src/receive.rs`: a unit of work,
  the request as a script sees it, and how work is received.
- `src/headers.rs`, `src/fold.rs`, `src/grouped.rs`, `src/wire.rs`,
  `src/wire_laws.rs`: header and trailer rules, from a script's table to the
  wire.
- `src/context.rs`, `src/cgi.rs`, `src/server_vars.rs`, `src/sapi.rs`: the
  CGI-style modes.
- `src/front.rs`, `src/reply.rs`: the HTTP front, request side and reply side.
- `src/cycle.rs`, `src/resident.rs`, `src/classic.rs`, `src/quota.rs`,
  `src/scoreboard.rs`, `src/worker_board.rs`, `src/process.rs`: the worker and
  its process.
- `src/intake.rs`, `src/runtime.rs`: handing requests to the pool.
- `app/`: the program around the library: command line, sockets, files, the
  worker thread, and the C interface of the embedded engine.
- `tests/`: tests of the library, with the real channel and HTTP types.
