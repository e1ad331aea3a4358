# CyberSnatcher

A video downloader's core, written in Verus. The library's rules (URL routing,
playlist and manifest reading, segment planning, command lines, the scraper's
pipeline and crawl) are stated as contracts and proved; the calls into outside
crates stand behind trusted wrappers whose contracts are not proved, and
`app/` holds the I/O, the processes and the floating-point arithmetic.

- `src/` is the verified library: URL routing, HLS playlist reading and
  AES-128 segment decryption, DASH manifest reading and segment planning,
  MP4 header patching, yt-dlp and ffmpeg command lines and output reading,
  the license gate, bookmarks, the screen-recording state, the decisions of a
  live recording, and the web
  scraper (selectors, the item pipeline, robots.txt, the crawl's decisions,
  exports).
- `app/` is the program around it: processes, HTTP requests, files, timing,
  and arithmetic on fractional seconds.
- `tests/` runs the library on concrete inputs.

Outside crates (`url`, `regex`, `scraper`, `roxmltree`, `dash-mpd`, `aes`/`cbc`, `dirs`)
are called from the library through small trusted wrappers whose contracts
say what their documentation promises.
