# dictationapp

The logic of a Windows desktop productivity assistant (push-to-talk dictation, screen OCR,
annotated screenshots), written in Verus with its contracts proved.

- `src/` is the verified library:
  - `windows_ptt_hook` — the push-to-talk hotkey: parsing hotkey texts, the keyboard hook's
    decisions and the release watchdog, with their laws (held keys are swallowed, releases
    stop after the bounce window, the watchdog stops on the sixth released poll, …).
  - `recording` — the dictation loop over hotkey reports and what becomes of a result.
  - `audio` — the recorder's control flags, the input-device choice, the warm-up gate and
    the mono 16-bit WAV file (written by `hound`).
  - `cloud` — the transcription key check, Whisper options, the silence-hallucination
    filter and the refining prompts.
  - `ocr` — OCR settings, weak-text detection, upload plans, base64 and the OCR run as a
    state machine from screenshot to copied text.
  - `annotate` — an RGBA canvas with lines, outlines, blur and pixelate regions.
  - `api_key`, `overlay`, `powershell`, `text` — key persistence rules, overlay modes,
    PowerShell quoting and the string functions the rest is built on.
- `tests/` runs the library on concrete values.
- `app/` is the Tauri application around it: windows, shortcuts, audio streams, HTTP
  requests, files and processes.
