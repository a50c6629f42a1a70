# jam

Low-latency online jam sessions over UDP: one player hosts, the others join
with a room code, and the host sends everyone a personal mix. The library holds
everything that decides: what is on the wire, who is in the room, which frame is
played next, what is sent where and when. It is written in Verus, and each
function is proved against its contract. Nothing in it performs I/O, reads a
clock or calculates with floating point numbers.

## The library (`src/`)

| module | what it holds |
|---|---|
| `seq`, `bytes`, `addr` | 16-bit sequence numbers, big-endian fields, addresses |
| `packet`, `roundtrip`, `framing` | the wire format, that what is written is read back, and where a datagram ends |
| `handshake`, `handshake_laws` | the join handshake of client and host |
| `control`, `control_laws` | the control planes: keepalives, pings, timeouts, rejoining |
| `jitter`, `jitter_laws`, `playout`, `accum` | jitter buffer, adaptive depth, sample FIFO |
| `pipeline`, `codec` | audio datagrams, mute/solo, redundancy, PCM layout |
| `net`, `ring` | what the receive and transmit threads decide, the lock-free rings |
| `session_laws` | what holds from one end of a session to the other |
| `engine`, `cli`, `device`, `stats`, `status_ui`, `stun`, `probe`, `measure` | configuration, options, device choice, display, STUN messages, probes, click timing |

Types have a mathematical view, functions are specified over the views, and
the public `law_*` functions state what holds across functions.

A few functions call `rtrb`, `crossbeam-channel` or std where Verus has no
specification; each stands behind a small wrapper whose doc comment says what is
taken on trust.

Sample words cross the library as the bits of single-precision numbers, a
simulated loss as a number of 24-bit units, and the jitter buffer is used by one
thread at a time: the program shares it behind a mutex.

## The program (`app/`)

Sockets, threads, the sound card (`cpal`), Opus, the terminal and the arithmetic
on samples, gains and levels.
