# bxenc

Authenticated file encryption (XChaCha20-Poly1305, Argon2id), encrypted vault
metadata, and steganographic wrapping of ciphertext, with the library's logic
verified by Verus.

- `src/` is the verified library: the blob format and the encryption engine
  (`crypto`), ad-hoc encryption and its Base64 text form (`adhoc`), the
  whitespace and acrostic layers (`stego`), vault metadata and the decisions of
  vault storage (`vault`), and the command line's own decisions (`cli`). Calls
  into argon2, chacha20poly1305, rand, sha2, hex, zeroize and the system clock go
  through small trusted wrappers whose contracts say what those crates document.
- `app/` is the `bxenc` program: argument parsing, prompts, file I/O, the vault's
  files and lock, and the bincode form of the metadata.
- `tests/` runs the library on concrete values.

The steganographic layers hide a length-framed payload. A payload shorter than
`0xFFFF_FFFF` bytes is framed by its length as four little-endian bytes; a longer
one by the four bytes `FF FF FF FF` and then its length as eight little-endian
bytes, so whitespace mode takes a payload of any size.
