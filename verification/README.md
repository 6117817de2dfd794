# raw_mirror

A verified library for the raw-mirror store: a content-addressed side archive
of session sources under a data directory.

- `src/` is the library, proved with Verus: the layout of the store, the paths
  of blobs and manifests, the identifiers and digests of manifests, the
  canonical form of JSON values, the redaction of source paths, and the
  decisions of a purge that counts and removes a leftover store.
- `app/` carries the decisions out on files, and reads manifests with serde.
- `tests/` runs the library with `blake3` and `serde_json` linked.

A purge follows links once, before it counts or removes anything: a store that
resolves to anywhere but its place under the resolved data directory is an
error.

The paths of the library are POSIX paths, taken by their bytes and compared by
their components. Where a system has paths of another kind, the program lets
the system break them into components, and calls the functions of the library
that take components or a file name.
What the proofs rest on beyond Verus stands in the functions marked
`#[verifier::external_body]` in `src/`; the comment above each says which
function it calls and what is claimed of it.
