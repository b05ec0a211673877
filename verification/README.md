# amqp-engine

The protocol core of an AMQP 1.0 endpoint, written in Verus: what a session, its links and the
receiving side of a link decide, with contracts that are proved.

- `src/` is the library. It holds plain state and is driven by plain values: frames that come in,
  frames that go out, and the outcome of handing a frame on.
  - `admission`, `message`: bounded structural admission of encoded values and message sections.
  - `incomplete_transfer`, `receive_budget`, `incoming_recovery`: deliveries that come in piece by
    piece, the storage that they share, and their recovery.
  - `unsettled_store`, `receiver_delivery`: deliveries that are not settled yet, and who observes
    them.
  - `link`, `receiver_link`, `receiver_attach`: one end of a link.
  - `relay`, `session`, `session_links`, `session_dispositions`, `session_state`: the session and
    its ends of links.
  - `receive_window`, `transfer_queue`: what bounds transfers in either direction.
  - `session_handle`, `transaction`, `observation`: what owners of sessions and transactions hold,
    and what observers of frames see.
  - The modules whose names end in `_laws` state what holds across functions. Other laws stand at
    the end of the module that they are about.
- `tests/` run the library.
- `app/` is the tasks, channels and locks around it.

Calls into `tokio`, `slab` and `bytes` go through small functions marked `external_body`, whose doc
comments say what is taken for granted of the call.
