# capsule-box

A small Linux container runtime with a daemon and a command-line client, `cb`.
Its logic is a library that is verified with Verus; the program around it makes
the system calls.

- `src/` is the library.
  - `container`: the containers that the daemon knows of, and the addresses
    that are taken; `container::laws`: what holds of both whatever happens.
  - `ipc`: the messages and their frames, what a client sends and prints, and
    how the daemon takes a connection from its request to its answer.
  - `sandbox`: what is done, and in what order, to set up the file system, the
    control group, the network and the processes of a container.
  - `script`: lists of operations on the system, which stop at the first one
    that fails.
  - `storage`: the metadata that outlives the daemon.
  - `cli`, `error`, `text`: the command line, the errors, and the texts that
    all of these are made of.
- `app/` is the program: sockets, processes, mounts, files and JSON.
- `tests/` runs the library on concrete values.

The library decides and `app/` acts. For a connection, `handel_one_connection`
takes the state of the daemon and an event, and says what to do next; the event
that this brings about is the next input. For work on the system, a function
returns a list of operations, and `advance` says after each of them where to go
on, or with which error to end. The start of a container is taken on by
`continue_start` in the same way.
