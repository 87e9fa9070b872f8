# index_mcp

The verified core of a code index for model-context clients, and the program around it.

The index keeps the files of a workspace, cut into chunks, with their vectors and a graph of
their definitions, in one SQLite database. A client asks for a refresh, for the state of the
index, for chunks near a query, for a bundle of context around a file, or for the recent
history of the repository.

## Layout

- `src/` is the library. Its functions have contracts that Verus proves: how a text is
  cut into chunks, how a query is read and its matches are ranked, how a bundle is cut to
  its token budget and says what was cut, which files a run takes in and which it forgets,
  how commits become a timeline, when a file event starts a run, when a failed call is tried
  again, and what a client is told. Facts that span several functions are public proof
  functions whose names begin with `law_`.
- `app/` is the program: command line, files, database, network, and arithmetic on floating
  point numbers. It hands the library plain values and takes plain values back.
- `tests/` runs the library on given values, with the outside crates linked.

## What is trusted

Calls into `regex`, `globset`, `serde_json`, `sha2`, `hex`, `url`, `chrono`, `fastembed`, the
header types that `reqwest` hands on, and a few functions of the standard library stand
behind small wrappers. The comment above each wrapper names what it calls and what is
believed of it.

## Values

Texts are sequences of characters. A score is the bit pattern of a 32-bit floating point
number, which the library orders and compares but does not compute with. JSON that is only
handed through is kept as text. Paths are texts with forward slashes, and one that begins with
a slash begins at the root. The program refuses a system whose paths begin otherwise.
