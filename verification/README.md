# create2crunch

Searches for CREATE2 salts that give a factory contract an address with a
chosen hex prefix (or, given a rarity table, with many zero bytes).

`Config::new` takes the program name, the factory address, the calling
address and the init code hash (hex, `0x` optional), then optionally a
device number (default 255, the CPU), a leading-zeroes threshold (default
7), a total-zeroes threshold (default 5) and a hex prefix; with a prefix the
thresholds are zero. The command-line program reads its arguments with
`Config::from_command_line`: leading-ones count, factory address, calling
address, init code hash, device.

- `src/` is the verified library: `config` (argument validation, hex
  argument parsing), `bytes` (fixed-width conversions), `hexcode` (hex text via
  the `hex` crate), `keccak` (Keccak-256 via `tiny-keccak`), `text` (string
  helpers) and `search` (per-salt hashing, matching, checksummed address and
  report line).
- `app/main.rs` is the command-line program: argument reading, the parallel
  search loop, the random salt segment, and the output file.
