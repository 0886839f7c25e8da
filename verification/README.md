# asynclm

Asynchronous function calling for language models: a model writes calls into its answer and
goes on writing while they run.

```
[CALL] w1 [HEAD] get_weather("London") [END]     starts a call
[INTR] w1 [HEAD] {"temp_f": 60} [END]            brings its result back
[TRAP][END]                                      waits for the results still out
```

`src/` is a library verified with Verus. It turns the markup into tokens, parses a stream of
tokens, runs the bookkeeping of calls, results, interrupts and checkpoints, and decides at
each trap whether the context is kept, swapped or recomputed. A session takes events and
answers with what its driver is to do; it performs no input or output of its own.

`app/` holds the drivers. Each loads a model, runs the decoding loop on the `inferlet` host,
keeps the clock and the messages, and computes with floating point what the library is then
handed as an ordering.

`tests/` runs the library on a table codec in place of the host's tokenizer.

What is not proved is what the host's tokenizer and `str::to_lowercase` compute: the library
names their results and says what it does with them.
