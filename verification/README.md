# loadr

The verified core of a load-testing tool, with a thin command line around it.

* `src/` is the library. Its functions carry contracts that Verus proves; of what
  rests on chance, the clock, a counter that threads share or the XPath engine's unordered
  sets of nodes they say what holds whatever comes back.
  * Definitions: `config`, `merge`, `yaml`, `template`, `duration`, `diagnostics`.
  * Virtual users and their data: `vu`, `data`, `feeds`, `rows`, `random`.
  * Responses: `protocol`, `conditions`, `extract`, `chain`, `patterns`, `browser`.
  * Metrics: `metrics`, `tags`, `snapshot`, `summary`, and where they go: `prometheus`,
    `statsd`, `influx`, `otlp`, `lines`, `headers`, `output_flag`.
  * The fleet: `controller`, `runs`, `messages`, `command`, `sweep`, `submit`, `session`,
    `listing`, `delta`, `files`, `ui`.
  * Generated plans: `contract`, `plan`, `document`, `example`, `openapi`, `fuzz`,
    `graphql`, `postman`, `grpc`, `copilot`.
  * Reading runs: `explain`, `report`, `history`.
  * Scripts: `modules`.
  * Ground: `text`, `json`, `float`, `strmap`, `encoding`, `clock`.
* `tests/` runs the library on concrete values.
* `app/` is the program: arguments, files, SQLite, HTTP, the browser and the script
  engine.

Doubles are held by their bits (`float::Double`): their order is decided on the bits,
and arithmetic on them is only named. What the outside crates compute is either stated
in the contract of the one function that calls them, or named there.
