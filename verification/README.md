# hash_miner

A miner for the H98 token. A nonce solves a challenge when the Keccak-256
digest of the challenge followed by the nonce, read as a number with the most
significant byte first, lies below the difficulty.

## Layout

- `src/` is the library, verified with Verus.
  - `bytes`, `words`: byte sequences as numbers, and the 64-bit words of the GPU kernel.
  - `pow`: the proof check.
  - `nonce`, `worker`: the nonce sequence and the batches of a CPU worker.
  - `pipeline`, `gpu`: the batch pipeline and the self-test of the GPU backend.
  - `json`, `hexadecimal`, `rpc`, `calldata`: messages to and from the node and the contract.
  - `settings`: what the environment variables mean.
- `tests/` holds its tests.
- `app/` is the program: the environment, HTTP, threads and OpenCL. The kernel
  is read from `keccak_kernel.cl` in the working directory.

## Environment variables

| Variable | Default | Meaning |
|---|---|---|
| `WALLET` | (none) | The address to mine for. |
| `RPC_URL` | `https://eth.llamarpc.com` | The node to ask. |
| `MINER_THREADS` | CPUs minus one | CPU workers. |
| `GPU` | `0` | `1` to mine on the GPU. |
| `GPU_BATCH` | `4194304` | Nonces per GPU dispatch. |

## What is trusted

The proofs rest on the contracts of the functions marked `external_body`, which
call `keccak-hash`, `hex`, `serde_json`, `rand` and `num_cpus`. What each
contract claims stands above it.
