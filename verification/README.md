# mmm

A garden sprinkler controller: a web page with a toggle for the valve, a CSV
log of the valve state with the weather, and a graph of the recent past.

`src/` is the verified library:

- `text` – the `str` operations the rest relies on (`split`, `lines`,
  `replace`, integer parsing, which texts parse as a float, decimal
  printing), each specified over
  `Seq<char>`, with the law that printed numbers parse back.
- `switch` – the switch state machine, the toggle decision, and the
  `true`/`false` records of the switch history.
- `status` – the log record of a reading, the state read back from the log at
  start-up, and the JSON bodies of the status endpoints.
- `store` – the YAML switch history read as states, and its CSV.
- `graph` – the clock, the readings of the log placed on the time axis by
  their timestamps, the on/off step line and the points of the reading lines.
- `route` – which page a request path asks for.

`app/` is the program around it: the two servers (`tiny_http` and, when run
as `mmm-http`, `actix-web`), the GPIO pin, the weather service, the files on
disk and the chart drawing.
