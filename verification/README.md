# vetro

The platform of a virtual machine and the host side of its network, as a verified
library: what every device, queue, connection and packet does is stated in
`requires` / `ensures` contracts and proved by Verus.

- `src/platform`: the board of the `virt` machine. MMIO bus, GICv3, generic timer,
  PL011, PL031, PL061, the device tree, the virtio-mmio transport with its split
  queues, and the block, console, network, display, input and vsock devices.
- `src/net`: the virtual gateway. Ethernet, ARP, IPv4, ICMP, UDP, TCP, DHCP and DNS;
  the sinkhole and the relay behind it; the connections that the host opens.
- `src/snapshot.rs`, `src/rows.rs` and the `*_saved.rs` modules: the state of the
  machine as a sequence of typed fields, saved and restored.
- `src/table.rs`, `src/bytes.rs`, `src/text.rs`: ordered tables, bytes, text.
- `app`: the fields as bytes, with `vetro_snapshot`.

Each type that holds state has a view, a mathematical value; each operation has a
spec function from the value before it to the value after it. The modules named
`*_laws.rs`, and the functions named `law_*`, state what holds of the whole: what is
written is read back, what is sent arrives in order, what is refused changes
nothing, what is saved comes back.
