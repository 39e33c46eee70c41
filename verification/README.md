# walletui

A local password manager for the terminal. The records live in one encrypted vault
file; they can be browsed, searched, filtered by category, edited, deleted, and
imported in bulk from CSV or TSV.

The library under `src/` holds the logic, verified with Verus:

- `storage`: the record type, the vault's plaintext layout (counted UTF-8 strings), and
  sealing/opening the vault (PBKDF2-SHA256 key, HMAC-SHA256 tag, key stream of HMAC
  blocks). Proved: reading back what was written gives the same records, and a vault
  opens with the password it was sealed with.
- `crypto`: the key stream and a constant-time comparison over the `pbkdf2`/`hmac`
  crates.
- `import`: line and field splitting (quotes, doubled quotes), header detection, and
  turning rows into records. Proved: quoted fields are read back exactly; unquoted lines
  split exactly at the delimiter.
- `app`, `update`: the application state and the key handling, as a state machine whose
  saves are returned to the caller.
- `ui`, `cli`, `text`: the computations behind drawing, the command line, and strings.

`app/` is the program: terminal, files, prompts and drawing with ratatui.
