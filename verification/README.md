# sally

Core of a floating window that transcribes and translates meetings while they
run. The library in `src/` decides; `app/` holds windows, devices, files and the
network.

- `timeline`, `session`: fragments of speech become entries, entries become a
  transcript; what a meeting does on every event.
- `store`, `config`, `commands`: meeting files and their names, settings, what
  the windows ask for.
- `gemini`: messages to and from the live model, cleanup of finished transcripts.
- `audio`: lanes and chunks, recordings, playback, which device or application
  to capture.
- `split`, `diarization`, `diarize`, `fbank`, `models`, `labels`: speaker changes and
  speakers.
- `lang`, `readout`: languages, and what is read aloud.
- `text`, `text_map`, `order`, `path`, `error`: texts, maps, sorting, locations,
  errors.

Modules that end in `_laws` state what holds of the library as a whole. Every
function of `src/` is verified with Verus; what is taken from other crates or
from the standard library on trust says so at its declaration.
