# rusicsetup

Sets up the database of a home music server: it scans the music folder and
any USB drives for audio files and cover art, reports which album folders
lack cover art, reads the tags of each audio file, makes thumbnails, and
writes artists, albums, songs and images to SQLite.

- `src/` is the library, verified with Verus: path splitting (`paths`),
  text and number handling (`text`, `numbers`), sorting files into audio and
  images (`media`), page numbering and write batches (`paging`), the
  cover-art report (`coverart`, `report`), the rows built for each file
  (`records`, `tags`, `albums`), ids (`digest`), sizes (`sizes`) and the
  settings read from the environment (`settings`).
- `app/` is the program around it: environment, file walking, tag and image
  reading, threads and the database.
- `tests/` runs the library on concrete values, and checks its path and
  number handling against the standard library.
