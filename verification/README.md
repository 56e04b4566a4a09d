# canopen_sdo

The client side of the CANopen service data object (SDO) protocol: expedited and segmented reads
and writes, and block writes with a checksum.

The library does no input or output. It builds the frames that are to be sent, reads the frames
that arrive, and decides what comes next; whoever uses it sends the frames and waits. Its functions
carry contracts that Verus proves.

- `src/client.rs`: the client of one node, with at most one request in flight
- `src/request.rs`, `src/response.rs`, `src/frame.rs`: the data of the frames
- `src/pending.rs`: the request in flight, and the signals on which answers are delivered
- `src/upload.rs`, `src/download.rs`, `src/block.rs`: the transfers of more than one frame
- `src/error.rs`: what can go wrong
- `src/laws.rs`: what holds of the client as a whole, such as that a segmented read gives back what
  a segmented write wrote
- `app/`: an asynchronous client for Embassy on top of the library
- `tests/`: the library at work

Two calls into other crates are trusted: the range check of a standard CAN identifier
(`embedded_can`) and the checksum CRC-16/XMODEM (`crc`).
