# nitro_attest

Host and enclave programs for AWS Nitro Enclaves, with their logic verified by Verus.

* `src/` is the library. Every function in it is verified; `src/crypto.rs` holds the
  calls into outside crates, whose contracts are trusted.
* `app/` is the command around it: sockets, processes, clocks, HTTP.
* `tests/` runs the library.

## What it does

* **Attestation.** The enclave makes a secp256k1 key, tries it out, and asks the Nitro
  Security Module for a document that vouches for it. The host fetches the document in
  base64.
* **Computation.** At vsock port 5000 the enclave takes one input, computes an output, and
  answers with it and a document whose user data is `SHA-256(input || output)`. Input,
  output and document travel in frames of four big-endian length bytes and a payload.
  The sample computation sums a list of whole numbers.
* **Upload.** The enclave answers a streamed body with its SHA-256 digest and its size.
* **WebSocket.** The enclave reads messages ever more slowly, one second more each time.
* **Benchmark.** Host and enclave measure vsock throughput in both directions. The host
  opens with 24 bytes (total, buffer size, flags), sends the data, and waits for an
  acknowledgement of 8 bytes; if asked to, the enclave then does the same.
