# git-remote-tape

A Git remote helper for storing repositories on Tapedrive, with its decisions verified
in Verus. Git learns the `tape://` transport from it:

```console
$ git clone tape://<tape-address>
$ git pull
$ git push
```

## Layout

- `src/` is the library. Every function states what it returns in a contract, and Verus
  proves it. Running git, reading files and talking to the network are left to the caller:
  where a decision needs an answer from outside, the library says what to ask for and takes
  the answer as a plain value.
- `app/` is the `git-remote-tape` program around it: subprocesses, files, environment, and
  the Tapedrive SDK. The SDK and its clients are not dependencies of the library; building
  the program takes a checkout of the Tapedrive workspace, which holds them.
- `tests/` runs the library on concrete values.

## What is proved

- A decision about a batch of refspecs is a function of the refspecs, the base index and
  the answers of git that it asked for, with one line of result per refspec.
- Folding a decision into an index satisfies it, keeps every ref that the push does not
  name, drops no pack, and leaves HEAD where it is unless its branch is gone.
- A push writes the index at most five times, never merges with a version of its own, and
  only reports success once the visible index reflects it or its write landed clean.
- Pack bytes are only handed on when they match the digest in the index, and index bytes
  from a gateway only when they are proven against the chain. Every read comes to an end.
- A fetch only reads packs that are not installed, and finishes when all of them are.
- An index decodes to what was encoded.

## What is trusted

The hashes and addresses of the Tapedrive crates, `hex`, `serde_json` and the lossy UTF-8
conversion of the standard library are called through wrappers whose contracts are not
proved. They are in `src/crypto.rs`, `src/json.rs` and `src/git.rs`, each with what it
claims.

## Configuration

| Variable | Default | Purpose |
|----------|---------|---------|
| `TAPE_RPC_URL` | `https://api.devnet.solana.com` | Solana RPC endpoint |
| `TAPE_GATEWAY_URL` | Direct storage-node reads | Optional gateway for bulk reads |
| `TAPE_KEYPAIR` | `~/.config/solana/id.json`, when present | Transaction fee payer for pushes |
| `TAPE_CASSETTE` | `~/.tape/cassettes/<tape-address>.json` | Key controlling the tape |

When the push credentials are absent, the helper remains read-only and cloning still works.
An explicitly configured but invalid keypair path is an error.
