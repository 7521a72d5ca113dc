# readymade

The decision-making core of Readymade, an installer for ready-made
distribution images, written in Verus: every function in `src/` carries a
contract, and Verus proves that the code meets it and never panics.

## Layout

- `src/text.rs` — string and line primitives (trim, split, lines, words,
  decimal numbers) with their mathematical models.
- `src/order.rs` — a stable insertion sort by an order the caller proves.
- `src/systemd_ini.rs`, `src/ini_roundtrip.rs` — the systemd INI-style parser
  and printer, and the proof that the printed text of any file read from text reads back
  as the same file.
- `src/repartcfg.rs`, `src/repart_output.rs` — `systemd-repart` partition
  definitions, the partitions it reports back, `/etc/fstab` and
  `/etc/crypttab` generation.
- `src/custom.rs`, `src/installcustom.rs` — custom mount targets, their order
  and the dialog that edits them.
- `src/disks.rs`, `src/albius.rs` — disk detection facts, `lsblk` output and
  the partitioning recipes.
- `src/install.rs`, `src/state.rs`, `src/export.rs`, `src/cfg.rs`,
  `src/setup.rs` — installation state, the install plan and its arguments,
  the playbook and the exported result.
- `src/postinstall.rs` — post-install modules: drivers, GRUB, EFI stub,
  language, kernel reinstall.
- `src/util.rs`, `src/l10n.rs` — kernel command line, block-device paths,
  languages and time zones.
- `src/confirmation.rs`, `src/navigation.rs` — the confirmation checks and
  the page flow of the interface.
- `app/` — the program around the library: reading files and devices,
  running commands, serde copies of the library's types.
- `tests/` — tests of the library on concrete values.
