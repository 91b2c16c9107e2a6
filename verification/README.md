# ddshark

A passive monitor for RTPS/DDS traffic: it captures packets from a network
interface or a packet dump, decodes the RTPS messages they carry, and keeps
a live view of the participants, writers, readers and topics it observes,
with message and bit rates and a list of abnormal events.

## Layout

- `src/` is the verified library. Its functions are verified by Verus
  against their contracts, with these exceptions: the small trusted
  wrappers around std (`Instant`, hashing, UTF-8 text, `String`), `hex`
  and `etherparse`, whose contracts are assumed and not proved; and
  `LockFreeStatistics::new` and `snapshot`, which work on std atomics and
  carry no contract. The modules:
  - `reassembly`, `packet`: IPv4 reassembly and frame dissection;
  - `wire`, `rtps`, `discovery`: the RTPS wire format and the PL_CDR
    discovery data;
  - `watcher`: turning an RTPS message into update events;
  - `state`, `updater`, `tick`, `dispatch`, `state_cleanup`: the traffic
    state and the rules that update it;
  - `timed_stat`, `defrag_buf`, `vecmap`: the data structures they use;
  - `dashboard`, `table`, `rows`, `display`: the logic of the text
    interface (navigation, table rows and their text);
  - `opts`, `ring`, `replay`, `latency`, `lockfree`, `digits`, `text`:
    smaller pieces.
- `tests/` exercises the library on concrete inputs.
- `app/` is the program around it: command-line parsing, packet capture
  with libpcap, the threads and channels, the terminal interface drawn with
  ratatui, and the CSV logs.

Run `ddshark -i <interface>` to watch an interface, or `ddshark -f
<file.pcap>` to replay a dump.
