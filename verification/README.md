# npnp

A library and command-line program that searches LCEDA/LCSC components,
downloads their 3D models, and exports Altium schematic libraries.

- `src/` is the verified library (Verus): LCSC ID extraction and batch
  planning, the checkpoint format, retry decisions, search-result selection,
  file-name sanitising, OBJ/MTL splitting, SVG path tokenising, the SchLib
  record and stream encoding, and the layout of the compound file.
- `app/` is the program around it: the command line, HTTP requests, file
  I/O, the floating-point conversion of EasyEDA symbol geometry, and the
  compound-file writer.
- `tests/` exercises the library on concrete values.
