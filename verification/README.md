# living-postmortem-mcp

An MCP server that keeps incident postmortems as markdown files in a vault
directory (`<vault>/incidents/<incident_id>.md`) and offers four tools:
`create_incident`, `add_timeline_entry`, `search_similar_incidents` and
`resolve_incident`.

The library under `src/` is written in Verus. Every text transformation the
tools perform is specified over character sequences and proved:

- `text` — trimming, searching, prefix tests, line splitting and joining.
- `timestamp` — instants as Unix seconds and nanoseconds; RFC 3339 parsing
  and rendering are delegated to chrono. The clock is read in `app/` and
  handed to the library.
- `templates` — rendering an incident document, adding timeline lines,
  rewriting the status, reading the title, root cause and patterns back.
- `search` — tokens, shared-token counts and the ranking of incidents; the
  placeholder an empty pattern list renders as is not searched.
- `server` — validation of the tools' parameters, incident ids (the first
  candidate not already taken), and the documents each tool writes.
- `cli` — the command line.
- `properties` — laws relating the operations above, each stated with the
  conditions it needs (mostly: fields on one line, no `#` where a section
  heading is looked for, RFC 3339 text as chrono writes it): read-after-write
  of title, root cause and patterns; status rewriting keeps the title and is
  idempotent, and so is resolving without a summary; adding a timeline line
  keeps the title and what a search reads, and, when the timeline already has
  an entry, is rendering with the entry added; a status change of a rendered
  document keeps what a search reads; searching ignores ASCII case and
  punctuation.
- `status_laws` — a status change of a rendered document is the document
  rendered with the new status and resolution time.

`app/` holds the program around the library: argument handling, the rmcp
tool router, file I/O, and the wire forms of the tools' parameters and
results.
