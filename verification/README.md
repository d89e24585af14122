# gravai

The core of a meeting assistant for macOS: it detects meetings, records and
transcribes them, summarizes them with a language model and exports them.

`src/` is the verified library. Every function there carries a contract
that Verus proves: configuration and its stores (automations, profiles,
presets, shortcuts), meeting detection and calendar events, the speech gate
and voice detection that cut audio into utterances, transcript filtering,
summaries and corrections parsed from model replies, chat context and
citations, speaker turns, silence detection and trimming, export formats
(Markdown, text, Obsidian, Notion pages), SQL query building and JSON
settings merges. Public `lemma_*` proof functions state the properties that
hold across calls, such as reading back a rebinding or a disabled
automation never firing.

`app/` is the unverified shell around it: the settings and store files,
subprocesses (`ps`, `lsof`, `osascript`, `afconvert`), the SQLite database,
WAV files, HTTP requests to language models and Notion, logging, the event
bus and the per-source transcription loop.

`tests/` runs the library on concrete values.
