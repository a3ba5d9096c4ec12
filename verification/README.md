# sheat

Structure Heatmap counts the lines of every file in a codebase, totals them
per directory and points out files and directories that are much larger than
their siblings, as a Markdown, JSON or HTML report.

## Layout

- `src/` is the library, verified with Verus: line counting (physical and
  source lines for known comment syntaxes), the `.sheatrc` settings file and
  how command-line options override it, directory totals, sibling medians
  for hotspots, and the Markdown and HTML reports. Each public function
  states its result in its `ensures`; the `lemma_*` proof functions state
  properties that hold across calls (source lines never exceed physical
  lines, a directory never counts more than its parent, escaped text holds
  no markup, and others).
- `app/` is the `sheat` command around it: argument parsing (clap), walking
  the target with `.gitignore` support (ignore), file I/O, the JSON report
  (serde), and the floating-point hotspot ratio and its threshold.
- `tests/` runs the library on concrete inputs.
