# linkrouter

A library that decides which browser, or which browser profile, a link is
opened in, verified with Verus.

- `src/` — the library. Rules (`rules`, `route_service`) choose a profile for
  a link; `sanitizer` removes tracking parameters; `detectors` turn desktop
  entries, `profiles.ini` files, Chromium `Local State` files, registry
  entries and application bundles into profile lists; `mimeapps` edits the
  freedesktop `mimeapps.list` file; `commands` and `dispatch` answer the user
  interface and the links handed over by the system. Each function states its
  result in its contract, and the `*_laws` modules prove what holds across
  calls: the choice of one rule by priority, the ordering and uniqueness of
  detected profiles, and the handler that `mimeapps.list` names.
- `app/` — a command-line program around the library: it reads the
  configuration file and the system, starts browsers and prints.
- `tests/` — tests of the library on concrete values.
