# shm_ipc

Passing data between processes through shared memory (ashmem, POSIX
`shm_open`, System V `shmget`) and passing file descriptors over Unix-domain
sockets with `SCM_RIGHTS`.

- `src/` is the verified library (Verus): the byte layout of integers and
  records in a shared region, the control-message framing that carries a
  descriptor, and the meaning of the system calls' results. Its laws (for
  instance, that whatever descriptor the kernel frames into the receiver's
  control buffer is the one a successful receive returns, and that a read at
  an offset returns what was written there) are proof functions beside the
  code.
- `app/` is the command-line program that makes the system calls: it maps the
  memory, sends and receives the messages, and hands plain bytes and numbers to
  the library. Its subcommands are the two sides of each exchange.
- `tests/` runs the library on concrete values.

The control-message layout is that of Linux and Android; the word size and
byte order come from the machine, and the program checks the library's
arithmetic against `libc` at start-up.
