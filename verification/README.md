# rvkernel

The decision-making core of a small RISC-V supervisor kernel, written in
Verus and verified: round-robin thread scheduling over a slab of threads,
system-call decoding, the trap dispatcher, the console line editor, the
shell's command interpretation, path resolution and output lines, the
device-tree format check and reading that boot and device discovery rest
on, and the sector arithmetic of the block-device adapters.

- `src/` is the verified library. Each public function states what it
  returns or changes; the `*_laws` modules and the proof functions beside
  the code state properties that span calls (a dead thread is never
  resumed, every thread stays in exactly one place, queued or run by one
  of the harts, resolving a path twice changes nothing, a relative path is the
  working directory joined with it, a sector-by-sector write then read at
  the same position gives the data back, typing then deleting a character
  restores the line, ...).
- `app/` is the kernel image around it: boot, CSR and firmware access,
  VirtIO devices, the ext4 file system and the shell loop. It carries out
  the work the library asks for.
- `tests/` runs the library on concrete values.
