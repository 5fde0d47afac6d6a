# receipt_verifier

Fetches Ethereum block receipts from an untrusted RPC provider and returns
them only after recomputing the receipts trie root and finding it equal to the
header's `receiptsRoot`.

- `src/` is the verified library (Verus): the receipts-root check
  (`verify`), the answers of the receipts endpoint (`api::blocks`), the error
  envelope (`error`), the `RPC_URL` setting (`config`), the job store
  (`state`, `models`, `api::jobs`), a JSON model with JSON pointers (`json`)
  and the chaos proxy's corruption of receipt responses (`chaos`).
- `app/` is the service around it: `main`, the HTTP routes, the JSON-RPC
  transport, the environment, and the chaos proxy's forwarding loop
  (`receipt_verifier chaos-proxy`).
- `tests/` exercises the library with concrete blocks, receipts and
  responses.

The trie root, the EIP-2718 receipt encoding and the block hash are computed
by `alloy-trie` and `alloy-consensus`; the library names their results and
proves its own logic against those names.
