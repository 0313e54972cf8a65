# hoc_long_tieng

The core of a desktop recorder for children's dubbing practice: a toolbar in
the web page records a clip, the app stores it, converts it to MP4 with a
bundled FFmpeg and saves it where the user chooses.

`src/` is the verified library (Verus):

- `calendar` — seconds since the Unix epoch to a UTC date and time, proved
  against a day-by-day calendar count, and the `YYYYMMDD_HHmmss` stamp;
- `text` — decimal rendering, whitespace/dot trimming and splitting;
- `file_ops` — Base64 decoding of a recording, file names, save reports;
- `convert` — the FFmpeg command line, reading FFmpeg log lines, outcomes;
- `updater` — update-check reports and the download byte count.

`app/` is the Tauri shell: the commands the web page invokes, file and
process I/O, the dialog, progress events and their floating-point
percentages.
