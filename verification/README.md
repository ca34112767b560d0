# ibexgit_core

The core logic of a git desktop client, written in Verus: every function in
`src/` carries a `requires` / `ensures` contract over mathematical models
(`Seq`, `Map`, `int`, views of each data type), and Verus proves the code
against it.

## What is proved

- **Parsers of git's machine-readable output** (`parse`, `diff`, `history`,
  `progress`, `compat`): status, branches, log, numstat, blame, file history,
  config lists and unified diffs, each stated as a line-by-line model. Laws:
  diff body lines are numbered from their hunk headers; NUL-joined paths
  parse back to themselves.
- **Conflicts** (`conflict`, `blobs`): scanning a document for conflict
  blocks (ordered, each with its sections in order), validating a resolved
  document, classifying a conflicted path.
- **Line-level staging** (`patch`): the patch for selected lines of a hunk,
  renumbered with a running delta; Discard and Unstage build the same patch.
- **Commit graph** (`graph`): the resumable lane layout; laid out in
  topological order, it ends with no active lane.
- **Credentials** (`credential`, `session`, `stores`, `pending`, `helper`):
  git's credential protocol, credential keys, askpass classification, the
  session cache and approvals, the on-disk index and trusted host keys, and
  the one-shot table of prompts waiting for an answer.
- **AI assistance** (`ai_config`, `generate`, `context`, `prompt`, `sse`):
  provider selection, privacy filtering, diff sampling under a budget,
  map-reduce report planning, prompt text and server-sent-event decoding.
- **Statistics** (`stats`, `aggregate`, `calendar`): commit points per
  period and zero-filled month, day and hour axes.
- **Commands** (`gitcmd`, `actions`, `ops`, `net`, `untracked`, `logs`): the
  argument lists of git invocations and the meaning of their results.

Calls into outside crates (chrono, regex, serde_json, base64, getrandom) and
into std functions that vstd does not specify go through small trusted
wrappers marked `#[verifier::external_body]`; each one's doc comment says what
its contract claims.

## Layout

- `src/` — the verified library.
- `tests/` — tests of the library, run against the real outside crates.
- `app/` — the unverified program around it: the credential helper git
  runs, the credential broker and its local channel, and the code that runs
  git and probes the file system.
