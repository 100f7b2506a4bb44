# Celium

A verified core for a small private cloud, in Verus.

* `src/image` reads disk images: raw, qcow2, VMDK (monolithic sparse) and VHDX.
  An image is opened from the bytes of its file; reads, format detection and
  whole-disk checksums are proved against a mathematical disk.
* `src/mesh` is the cluster fabric: membership with a failure detector, the
  federated VM namespace, the wire protocol's decisions, the VM hosts, the
  kernel bridge, the supervisor that restarts orphans, cluster reports and
  Kubernetes provisioning. Everything that waits or talks is a state machine:
  the library says what is to be done next, and the caller does it.
* `src/tenancy` holds tenants, users, capabilities, quotas, sub-tenants,
  passwords, sessions, audit events and the admin tool's commands.
* `src/text.rs` and `src/error.rs` are shared.

What holds across several functions is stated as proof functions whose names
start with `law_`, next to the functions they speak of; those on tenant stores
are in `src/tenancy/store_laws.rs` and, over whole runs of operations, in
`src/tenancy/store_runs.rs`.

`app` is the program around the library: the `celtenancy` command line, files,
sockets, JSON, and the tasks of a running node. It has no volume or network
store of its own; a store is plugged in through the `Vault` trait.
