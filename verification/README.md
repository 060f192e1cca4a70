# Herdr A2A command line

The rules of the Herdr A2A command line, written in Rust and proved with Verus: the managed
installation with its ownership record, its journals and its recovery; the session that carries
peer messages; and the status of a workspace.

- `src/` is the library. A function states what it returns for the values that it is given, and
  Verus proves it. Where a result also rests on chance, or on a source of bytes that may change
  while it is read, it states what holds whatever came, and what is returned for each thing that
  can come. What touches a disk, a process or a network is not here: the functions take what was
  found there as plain values and say what is to be done.
- `app/` is the program around the library. It opens files, runs Pi and Herdr, speaks HTTP and
  draws the status screen, and asks the library for every decision.
- `tests/` runs the library on concrete values, with the outside crates linked.

## Modules

| Part | Modules |
| --- | --- |
| Foundations | `text`, `path`, `pathset`, `order`, `json`, `digest`, `random`, `error` |
| Ownership record | `record`, `layout`, `assets`, `accepted` |
| Installation | `install`, `transaction`, `rollback`, `restore`, `rescue`, `journaled`, `interrupted`, `migrated`, `pi`, `version`, `archive`, `places` |
| Files as they are found | `guard`, `walk`, `snapshot`, `cleanup`, `bounded` |
| Running processes | `registry` |
| Removal and inspection | `removal`, `inspect` |
| Session | `protocol`, `framing`, `tasks`, `rpc`, `broker_api`, `recovery`, `wire` |
| Status | `status`, `status_tui` |

## What is proved beyond the single functions

Each function whose name starts with `law_` states something that holds of several functions
together. Among them:

- a record that an installation writes is accepted when it is read back, and so are the journals
  that an installation and a rescue migration begin with;
- every change of an installation is journaled before it is made, and a journal is cleared only
  after the state of before was proved;
- what an installation leaves where it stops between two steps is recognised by its recovery;
- an interrupted rescue migration can be recovered wherever it stopped, and its recovery ends in
  one of two clean states;
- a removal stops the processes first, unlinks only files that the record owns, and asks the host
  to unregister the plugin last;
- a staged tree that is moved and moved back is the tree that it was, and the removal of one can be
  taken up again wherever it stopped, without ever touching anything that is not part of it;
- the digest of a package tree is one of the paths and the bytes of its files, whether the tree is
  read or copied;
- the registries of processes have one entry for a scope, whatever is reserved, bound, registered
  or removed, and are accepted when they are read back;
- callers that saw the same connection fail share the one that the first of them recovers;
- a message is sent at most twice, and a second time only where the agent has said that its task
  is not there;
- a status is shown only when the broker has proved it, and lines of logs are never shown.

## What is taken on trust

Functions of other crates (`serde_json`, `sha2`, `hmac`, `subtle`, `base64`, `getrandom`, `toml`,
`reqwest`, `a2a`) are called through small wrappers marked `#[verifier::external_body]`. The
comment above each one says what is claimed of the outside function.
