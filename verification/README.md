# Unreal Tools

Tools for the textures and the geodata of Lineage 2, as a library whose
functions are verified with Verus.

| Area | What it does |
| --- | --- |
| Texture packages | Reads, lists, previews, exports, edits, replaces and adds the textures of UTX packages. |
| Extraction | Extracts the textures of several packages, in their own format or as PNG. |
| Resizing | Decides which DDS and TGA textures are resized, and reads and writes them and their metadata. |
| Settings | Reads the settings of the application from their file and stores them in it. |
| Geodata | Reads regions of eight formats and writes L2J, CONV_DAT and L2G. |

- `src/` is the verified library. The modules whose names end in `laws` hold what
  is proved of several functions together.
- `tests/` runs the library on concrete files.
- `app/` holds what touches files, threads and floating-point numbers.

A package is read by one of two readers, which differ in their messages and in
how strict they are: `Dialect::Engine` writes textures, `Dialect::Frontend` lists
and imports them. Frame rates are kept as the bit patterns of 32-bit decimals.

New packages are made after a template package, `UnrealTlp`, whose bytes the
caller hands in.
