# jgrep

Semantic grep over local code and text with Jina embedding models, as the
`semtools jgrep` command.

- `src/` is the library, verified with Verus: chunking of files
  (`chunk`), grep-line parsing and color stripping (`search`), the order
  of reported results (`rank`), the model catalogue and its checks
  (`types`), the settings of a run (`settings`), result text
  (`format`), file filters (`filter`), workspace profiles (`workspace`),
  model files and status (`runtime`), batching and prompts for inference
  (`embedder`), the daemon's paths and answers (`daemon`), the error
  messages (`error`) and the text primitives they rest on (`text`).
- `app/` is the command around it: arguments, file and socket I/O,
  model inference with candle, and the floating-point scoring.
- `tests/` runs the library on concrete inputs.
