# unix-ancillary (verified core)

Ancillary data for Unix sockets: passing file descriptors (`SCM_RIGHTS`)
and sender credentials (`SCM_CREDENTIALS`, Linux and Android), with the
parts that decide something carrying machine-checked contracts.

- `src/` is the verified library. It holds the byte format of control
  messages, the bounded parser, the send/receive buffer and its state
  rules, the receive policies (keep the first `N`, strict counts,
  truncation errors), the complete-send procedure, and the receive budgets.
  Descriptors are plain integers there. The platform's `cmsghdr` shape
  (size, `CMSG_LEN(0)`, payload alignment, field offsets and the width of
  `cmsg_len`) and its message codes arrive as plain values, a `CmsgLayout`
  and a `CmsgCodes`, so the same library serves Linux, macOS and the BSDs.
- `app/` reads that layout and those codes off libc for the target it is
  built for, performs the system calls (`sendmsg`, `recvmsg`, `setsockopt`,
  `fcntl`, `getrlimit`), turns descriptor numbers into `OwnedFd` /
  `BorrowedFd`, and provides the blocking and Tokio extension traits.
- `tests/` exercises the library on concrete values, on the host's layout
  and on BSD- and musl-shaped ones.
