# ln-routing-replay

Replays recorded gossip of the Lightning Network together with recorded probe results, and measures
how well two models of channel liquidity, the historical model and the live bounds model of LDK,
predict which hops a payment passes.

The library is verified with Verus:

- `text`, `node_id`, `probe_log`: reading the lines of the probe log.
- `gossip`: reading the records of channel updates and channel announcements.
- `funding`: the funding outputs that the network graph asks for.
- `network`: the network graph and the scorer of the `lightning` crate, and what is trusted of them.
- `probe`: looking the channels of a logged probe up in the graph.
- `simulation`: asking the models about each hop of a probe, then telling them its result.
- `report`: which categories of results each row of the report averages over.
- `replay`: the order of events, and what each event does to the simulation.

Public proof functions named `law_..` state what holds across functions.

The program around it reads `channel_updates.bin`, `channel_announcements.bin` and `probes.txt` from
the working directory, adds the log-loss of the predictions up, and prints the report.

The `lightning` crate is used without its `std` feature. With that feature the graph compares the
timestamps of updates with the clock and refuses those that are older than two weeks, so that nothing
recorded before could be replayed.
