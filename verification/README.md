# gguf

Reads GGUF model files and runs the models in them (llama, qwen2 and mistral families).

`src/` is a library verified with Verus:

- `file`, `cursor`, `header`, `tensor`, `types`, `layout`: the file format. The parser is proved
  against a description of the format; `layout` holds what is true of the format as a whole.
- `dump`, `dump_json`, `json`, `sizes`, `lookup`: reports on a file.
- `infer`: the vocabulary (`tokenizer`), the model's tensors and steps (`model`), the weights' layout (`quant`), the key/value cache
  (`cache`), the choice of tokens (`sampler`), the text of a run (`stream`) and its course (`engine`); `run_laws` and `tokenizer_laws` hold what is
  true of whole runs and of texts and their tokens.
- `console`, `gui`: what the two front ends show and do.
- `float`, `text`, `error`: numbers by their bit patterns, strings, errors.

Floating point numbers are bit patterns in the library. Where it needs arithmetic on them it asks
its caller: `infer::engine::Action` and `infer::sampler::Ask` say what is to be computed next, and
the answer goes back into the library.

`app/` is the program around it: files, the console, the window, and the floating point arithmetic
of the forward pass and of sampling. It has three commands: `gguf dump`, `gguf infer`, `gguf gui`.
Under the names `gguf-dump`, `gguf-infer` and `gguf-gui` it is one of them.

`tests/` are ordinary Rust tests of the library.
