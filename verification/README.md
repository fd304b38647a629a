# citadel_workspace_server_kernel

The decision-making core of a workspace server, written in Verus: every
function in `src/` carries a contract that Verus proves.

## Layout

- `src/` — the verified library.
  - Store and access rules: `store`, `user`, `permissions`, `domain`,
    `strmap`, `seqs`, `text`.
  - Changes with rollback: `transaction`; the kernel's operations on users,
    domains and permissions: `kernel`, `workspace_ops`, `entity_ops`,
    `members`, `member_admin`, `queries`, `setup`; the commands a client
    sends and their answers: `commands`; the server's own rule set over a
    kernel: `server_ops`.
  - The workspace tree: `tree` (validation), `describe` (messages),
    `structure` (laying out configured offices and rooms).
  - Around connections: `connection`, `lookup`, `ice`, `group_access`,
    `profile`, `display_name`, `rate_limiter`, `secret_eq`, `response`.
- `tests/` — tests run against the compiled library.
- `app/` — the parts that touch files, clocks, the environment and locks.

The only trusted code is a handful of small wrappers around `sha2`,
`subtle`, `uuid` and `std` string operations, each with its contract in a
doc comment.
