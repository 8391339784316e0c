# ankiserver

Deployment tooling for a self-hosted Anki sync server on Windows: it sends the
server's shortcut to the desktop and the start menu, points the PC's Anki
add-on at the server, switches the server's TLS settings on, keeps a deploy
counter, and runs the server's account commands.

- `src/` is the verified library (Verus): text handling (`text`), decimal
  numbers (`number`), Windows path joining (`paths`), the shortcut sender
  (`send`), its errors (`error`), configuration rewriting (`config`), the
  deployer's version check, counter and paths (`deploy`) and the account
  commands (`users`).
- `app/` holds the programs (chosen by the first argument: none, `send`,
  `accounts`, `elevate`, `remove`): registry, file, process and network work
  around the library.
- `tests/` exercises the library, comparing it with std where std computes
  the same thing.
