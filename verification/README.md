# blockworld

A small block-world server whose rules are verified with Verus.

`src/` is the library: chunks and worlds and how they are stored (`chunk`, `world`, `storage`,
`nbt_data`, `json`), the packets that clients and the server exchange (`wire`, `client`,
`packets`, `chat`), and what they do (`player`, `items`, `blocks`, `entities`). Every function
states what it does in a contract; proof functions whose names begin with `law_` state what holds
of several functions together. Calls into the crates `nbt`, `serde_json`, `regex` and `tokio` are
wrapped in small functions whose contracts are trusted.

`app/` is the server around it: sockets, files, tasks, compression and floating-point geometry.
`tests/` runs the library on concrete values.
