# pnet_datalink (WinpkFilter backend)

A verified core for the Windows Packet Filter datalink backend.

- `src/` — the verified library (Verus):
  - `winpkfilter` — the backend's configuration (`Config`, its default and its
    conversion from the generic channel configuration);
  - `datalink` — types shared by the datalink backends (`NetworkInterface`, IP
    networks);
  - `guid` — reading an adapter's GUID from its `\DEVICE\{GUID}` name;
  - `sender` — the state machine that lays out and sends a batch of frames;
  - `receiver` — the first-in, first-out queue of received frames and the
    decisions of waiting and reading;
  - `adapters` — turning the driver's adapters into network interfaces.
- `app/` — the driver calls, the Windows calls and the channel plumbing
  around the library (Windows only).
- `tests/` — tests of the library.
