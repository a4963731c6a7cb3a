# herdr (verified core)

The decision logic of the herdr terminal workspace client, written in Verus
with its contracts proved:

- `presence`: projection of the read-only presence feed of project-user
  agents (lane and user derivation, context usage, liveness filter, order).
- `presence_refresh`: when the feed is polled and what a result does to the
  rows shown.
- `sidebar`: the agent panel's rows (local agents, lane tabs, remote
  presence), scope, order and each row's display context.
- `layout`, `pinned`: cell geometry of the panel header, the agent list and
  session-level pinned panes.
- `timestamp`: the RFC 3339 reader and freshness labels.
- `socket_access`, `remote_host`, `build_info`: socket permission policy,
  the remote bridge's user gate, build identity.
- `text`: character-level helpers shared by the above.

`app/` holds what stays outside verification: JSON decoding, the HTTP fetch,
the system user and group databases, socket files, compile-time build
settings, and drawing the agent panel into the terminal buffer: header, list
and styles as the library plans them, each row's tokens laid out by the
caller from the display context the library gives the row.
