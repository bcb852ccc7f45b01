# alibaba_graph

Turns Alibaba's microservice call-graph traces into windowed graph files and
runs operations (average degree, vertex count) over those files.

- `src/` is the verified library (Verus): command-line options and the load
  request they describe, time breakdowns, the call-graph archives a span
  needs, cutting spans into windows and numbering them, file names and their
  order, which trace records become edges, the download retry policy, and
  decimal text handling. Every function carries a contract; the `law_*` proof
  functions state properties that span several functions.
- `app/` is the program around it: environment, downloads, archive
  extraction, CSV reading, raphtory graphs, parallel work and the Python
  module.
- `tests/` runs the library on concrete values.
