# crosscrypt

Portable disk encryption: AES-256-XTS sectors under a 512-bit master key, the
master key wrapped with ChaCha20-Poly1305 under a key that Argon2id derives from
the password, and a volume header that locks the volume after failed password
attempts and wipes its key slot at the tenth. In-place encryption saves its
checkpoint in the superblock at least every thousand sectors and resumes from
it.

The library in `src/` is verified with Verus; the program around it, in `app/`,
reads and writes devices, prompts for passwords and mounts volumes.

- `src/engine/` — the cipher (`xts`, `crypto`), key derivation (`kdf`), the
  volume header, its lockout policy and the plan of in-place encryption
  (`format`), the decisions of creating, unlocking and locking a volume
  (`volume`), decimal text (`text`), and the trusted calls into the cipher,
  key-derivation and randomness crates and the clock (`primitives`).
- `src/fs/` — block encryption of the data area (`block`), the block cache
  (`cache`) and the read-only NTFS parser (`ntfs`).
- `src/platform/` — the choice of a drive letter and the file-system front ends.
- `app/` — the command line, device I/O, the cache and NTFS drivers over a
  device, the serializable copies of the header and superblock, and the benchmark.
