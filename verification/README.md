# novus-voice

The core of an offline text-to-speech sidecar, verified with Verus. It turns a
sentence into what a Kokoro model is given, and what the model gives back into
audio with a timing for every word. Timings point at the characters of the
request.

- `src/` is the library. Verus proves every function but the trusted ones, of
  which more below.
  - `speech` writes prose as it is spoken, `phonemes` phonemizes it, `encode` gives
    phonemes their ids, `timing` joins ids and words in time. `promise` states what
    holds from the request to the reply.
  - `vocab`, `style` and `outputs` read a pack's files; `pack` and `kokoro` put
    them together.
  - `protocol`, `session`, `speed` and `audio` are the dialogue with the caller;
    `cli` is the command line.
  - `chars`, `search`, `order`, `table` and `json` serve the others.
- `app/` is the process around it: standard input and output, files, the ONNX
  session, JSON, and floating-point arithmetic.
- `tests/` runs the library.

What is trusted rather than proved is marked `external_body`,
`assume_specification` or `external_type_specification`, and says above itself
which function of which crate it speaks of. Spec functions without a body
(`uninterp`) name what such a function returns, or may return.

The phonemizer is built without its `espeak` fallback, so unknown words are
spelled letter by letter.
