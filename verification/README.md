# Omegawhisper

Dictation for the desktop: press a shortcut, speak, press it again, and the text is typed
into the app in front. Speech is transcribed by a service or by a model on this machine.

The crate in `src/` holds what the app decides and computes, with contracts that Verus
proves:

| module | what it holds |
| --- | --- |
| `state` | the settings, and the recording in progress |
| `capture` | which microphone is used, and in which format |
| `signal` | frames, loudness, what is cut off and by how much quiet sound is raised |
| `wav` | 16-bit samples as bytes and as WAV files |
| `dictation` | gathering the sound for a local model, and what becomes of its text |
| `server`, `stream`, `json` | addresses, messages and the course of a connection to a service |
| `models` | the local models and their status |
| `typing` | typing a text into another app |
| `wireplumber`, `keybinding` | reading `wpctl status` and `dconf dump /` |
| `fingerprint` | the fingerprint of the device |
| `files`, `tray` | recordings and the data folder, the menu of the tray |
| `text` | characters, lines and numbers |

Three things are left to outside crates and believed, each stated in a contract next to the
call: digests (`sha2`, `hex`), addresses (`url`) and JSON (`serde_json`); `text` states two
functions of the standard library.

The app in `app/` does the rest: windows and tray, the microphone, network and files, and all
arithmetic on samples, which is floating point. A build without a local engine
(`app/engine.rs`) offers no local models.
