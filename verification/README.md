# server

A peer-to-peer video sharing service. An uploader sends a video to the server
node; the node cuts it into one-second clips, stores each clip under a tag
`<document>:<number>` and records in a shared document who may watch it.
Viewers query clips by tag.

- `src/` is the verified library (Verus): text operations (`text`), the
  naming of an upload (`upload`), reading queries and replies (`protocol`),
  ordering the segment files (`segments`), the access-list decision
  (`access`) and the reactions of the document listeners (`events`).
- `app/` holds the programs around it: networking, files, ffmpeg and the
  JSON form of the access list.
- `tests/` runs the library on concrete values.
