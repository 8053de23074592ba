# abridge

Android Bridge for AI-assisted development: a CLI and MCP server that reads an
Android device over ADB (screenshots, OCR, logcat, input, device state, crash
reports) and structures what the device prints.

- `src/` is the verified library. It holds what the tool decides and computes
  from the device's output: logcat line parsing, level filters, the logcat query
  as a step function between shell commands, device state and crash report
  assembly, input planning, coordinate parsing and the device input commands,
  and the text forms printed by
  the CLI. Contracts are stated over `Seq<char>` models of the text.
- `app/` runs the device I/O (ADB, files, clock, OCR), the CLI and the MCP
  server, and carries serde forms of the library's types.
- `tests/` exercises the library on concrete device output.
