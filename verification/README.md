# sayjp

An offline Japanese text-to-speech command line tool (Style-Bert-VITS2 JP-Extra
voices run with ONNX Runtime). Give it text; it writes or plays a WAVE file.

## Layout

- `src/` — the verified library:
  - `ident.rs`, `registry.rs`: voice identifiers and the registry of loaded
    voice models (identifiers stay unique; loading twice is a no-op).
  - `synthesis.rs`: how a text is cut into lines to synthesize and where the
    half-second pauses go.
  - `tts_util.rs`: blank-token interspersing and the alignment of per-character
    BERT features onto phone frames.
  - `wav.rs`: the WAVE header (read with `hound`) and the length of the
    leading silence.
  - `numbers.rs`, `text.rs`, `cli.rs`: command-line reading, with the exact
    syntax of `i32` and `f32` arguments.
  - `serve.rs`, `run.rs`: the decisions of resident mode and of a one-shot run.
- `tests/` — tests of the library on concrete values.
- `app/` — the program: file and process I/O, the ONNX sessions, tokenizer,
  floating-point tensors and WAVE sample streams.

