# rengrave

The verified core of R-Engrave, a CNC engraving and v-carving toolchain that
keeps F-Engrave's settings comments, batch conventions and output.

`src/` is a Verus library; every function in it carries a contract that Verus
proves:

- `settings`, `comments`: `fengrave_set` comments, their parsing and writing,
  lookups and updates, and the TCODE encoding of text.
- `project`, `batch`: resolving a job's input, loading its document, and the
  batch pipeline with its cancel hook, progress stages, headers and outputs.
- `potrace`, `decompose`, `straight`: the packed bitmap, the decomposition of a
  bitmap into closed boundary paths, and the straight-run analysis of a path.
- `bitmap`: compositing, thresholding and cropping decoded images into trace
  bitmaps.
- `dxf`, `cxf`, `svg`, `external`: the structure of DXF and CXF files and the
  recognition of input files.
- `design`: authored objects with stable identities.
- `layout`, `gcode`, `vcarve`, `profile`, `cleanup`, `toolbit` and the
  `general_*` modules: the option vocabularies and their parsers.
- `text`, `paths`: character-level helpers and path operations.

`app/` is the command-line program around the library: file and image I/O,
argument handling, and the floating-point geometry (layout, curve fitting,
toolpath generation and export).

Not every feature of the R-Engrave toolchain is here. The program has no
general pocket or profile generation, does not load or save toolbit
libraries, has no outline text layout, and does not pass the text-on-circle
border to the toolpath step. The library keeps the option vocabularies of
these features (`general_pocket`, `general_profile`, `general_toolbit`,
`toolbit`), but nothing generates their toolpaths.
