# fablr_pipeline

The verified core of a video pipeline's command layer.

- `src/phase.rs` — the five phases, their keys, order and review gates.
- `src/job.rs` — a job's phase statuses and the state machine (start,
  complete, retry, skip), with the laws that the machine keeps.
- `src/commands.rs` — what each command decides between reading and
  storing a job.
- `src/row.rs` — the stored form of a job.
- `src/civil.rs` — Unix time to calendar date and ISO-8601 text (in the
  order of time), and the reading of a stored timestamp: the number it
  starts with.
- `src/clock.rs` — the system clock.
- `src/text.rs` — decimal text: writing and padding numbers, reading the
  number a text starts with, and comparing texts.
- `src/platform.rs` — export settings from a platform preset.

`app/` holds the JSON forms of these types and the command flows that read
and store jobs and send events, written against small traits for storage,
events, the exporter and the preset catalogue.
