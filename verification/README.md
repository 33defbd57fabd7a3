# openprot

The verified core of OpenPRoT's platform services, written in Verus.

- `src/` is the library, every function of it verified:
  - the boot orchestrator: its domain model (`model`), the state machine's
    mathematical model (`machine_spec`), the model of a dispatch run round
    by round (`run_spec`), the bounded queue a run settles its events from
    (`pending_queue`), the executable machine and its dispatch loop
    (`machine`), and the laws every step and every run keeps
    (`machine_laws`);
  - the device-table schemas (`config`, `api`), the board capability seams
    (`capabilities`), the effect executors (`driver`, which feeds each
    verdict back, and `shell`, which queues verdicts for the driver loop), the
    mock board's table checks (`mock_board`) and the resiliency effect
    vocabulary (`resiliency`);
  - MCTP: error codes (`mctp_error`), the IPC wire protocol (`wire`), the
    server's decisions (`server`), the client's response handling
    (`client`), the polling loop's requester flow (`requester`), the I3C
    encapsulation (`i3c`), the loopback packet buffer (`loopback`) and the
    serial seam's errors (`serial`).
- `tests/` exercises the library from outside.
- `app/` holds what runs around the library: the MCTP server over the
  `mctp-lib` router, its transports, the IPC client, the HAL-backed boot
  control, the server task's event loop, and `Display` texts.
