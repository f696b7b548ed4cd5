# muon_decoder

A viewer of particle tracks recorded by a 256 x 256 pixel detector. The library
under `src/` holds the logic of the viewer, verified with Verus; `app/` holds the
graphical program around it (egui), the file and environment access, and the
floating point measurements of tracks (energies, angles, winding, roundness).

Library modules:

- `text`: characters, white space, splitting lines into fields, decimal numbers.
- `frames`: the two detector file formats (a matrix of numbers, or `x y energy`
  lines, one pixel hit each, with `#` lines separating frames), and the pairing of
  frames with timestamps.
  Numbers with a fraction are read by the program and handed in.
- `timestamps`: the start times listed by a `.dsc` description (chrono parses them).
- `kinds`: track classes, detector orientations, browsing modes, languages.
- `classify`: the classification of a track from its size and the comparisons of
  its measurements with the thresholds.
- `navigation`: moving between tracks, frames and files.
- `settings`: the entries of the import dialog.
- `view`: which tracks are drawn, class counts, sorting of the muon tables.
- `image`: the pixels of the drawn tracks.
- `geometry`: coordinate sums and extents of tracks.
- `locale`: interface texts from JSON locales (serde_json parses them), with the
  English texts as fallback.
- `csv`: the muon tables as comma-separated values.
