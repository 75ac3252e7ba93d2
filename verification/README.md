# hadris_fat

The on-disk logic of FAT12, FAT16, FAT32 and exFAT volumes, written in
Verus with its contracts proved.

`src/` is the verified library:

- `bytes`, `raw`, `kind`: little-endian fields, directory entry constants,
  FAT entry encoding per variant.
- `boot`, `layout`, `format`, `mkfs`, `options`: boot sector and FSInfo
  parsing and checking, volume layout planning, what a format writes and
  decides.
- `dirent`, `lfn`, `short_name`, `name`, `names`, `utf16`, `oem`, `date`:
  directory entries, long names, 8.3 name generation and display, name
  comparison and conversion, code pages, timestamps.
- `check`, `walk`, `findings`, `fatfs`, `embedded`: what the checker and
  the drivers decide from the values they read, without touching a
  device.
- `exfat`: the boot sector and directory entries as plain values, entry
  sets and their checksum, the up-case table, the format layout, boot
  sector and root directory, the checker's cluster scan.

`tests/` runs the library on concrete values. `app/` holds what stays in
ordinary Rust: the process-wide mount counter of the embedded drivers and
the exFAT error type with its messages.
