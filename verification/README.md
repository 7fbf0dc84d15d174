# cerberus_agent

The self-host media agent of Cerberus Live Studio: it serves an artist's local music
folder over a local HTTP server (Range + CORS), opens a cloudflared tunnel, and registers
the scanned catalog to the artist's dossier.

- `src/` is the verified library (Verus). It holds the catalog scan model (tags over
  folder names, release kinds, the featured track, path order), the tag write-back onto
  lofty's `Tag`, cover sidecar names and the cover picker, media types, `Range` handling,
  request decoding, tunnel URL discovery, the start plan and status, and registration
  URLs. Each public function states its result in `ensures`; the laws that span
  functions are public proof functions named `law_*`.
- `app/` is the desktop backend around it: directory walks, ffprobe/ffmpeg, reading and
  saving files with lofty, the tiny_http server loop, cloudflared, ureq, the folder
  watcher, the persisted config and the Tauri shell.
- `tests/` runs the library on concrete inputs.
