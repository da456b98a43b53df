# hft

A multi-stage message router. Producers emit typed messages; a first stage
routes each message to a processor by its type (and, when a type has several
processors, by its producer); processors forward handled messages; a second
stage routes them to strategies by type; strategies check that the messages of
each producer and type arrive in sequence order.

- `src/` is the library, verified with Verus: configuration keys and tables,
  routing over `crossbeam_channel` queues and over ring-buffer lookup tables,
  the distribution pattern and pacing of producers, and the per-message
  bookkeeping of processors and strategies, with the laws that tie them
  together (routing goes by message type, and one producer and type always
  take one route; an in-order stream passes the ordering check; what the
  per-second reports hand out plus what is drained at the end of a run is
  every counted message; a steady producer sends its configured rate; the
  pattern follows the configured distribution; at each poll of a ring stage,
  a ring is marked closed only when it is seen empty after its writer has
  gone, and the stage stops exactly when every ring is marked). That the
  stage polls every ring until it stops is the loop in `app/`, which `src/`
  does not verify.
- `app/` is the program around it: reading the scenario file, starting the
  threads, spinning on clocks and channels, histograms and logging.
- `tests/` exercises the library on concrete values.
