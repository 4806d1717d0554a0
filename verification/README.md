# lunaris_portal

Lunaris backend for the freedesktop XDG Desktop Portal (`FileChooser`,
`OpenURI`), with its logic verified in Verus.

- `src/` — the verified library: picker IPC wire types (`protocol`) and
  length-prefixed framing (`codec`), request/response correlation
  (`pending`), portal option dictionaries (`options`), caller sandbox
  detection from cgroups (`sandbox`), Document Portal URIs
  (`document_portal`, `paths`), the stub interface replies
  (`interfaces`, `request`), the open-request counter and idle timeout
  (`state`), picker process decisions (`lifecycle`), and the picker UI's
  directory listing order (`listing`) and theme (`theme`).
- `app/` — the daemon: D-Bus interfaces and Document Portal calls
  (zbus), the Unix-socket IPC server, the picker subprocess, JSON on the
  wire (serde), and the picker UI's filesystem, IPC client and theme file
  loading.
- `tests/` — tests of the library.
