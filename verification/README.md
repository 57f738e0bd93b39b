# mango_workspaces

The MangoWM tag (workspace) switcher of a Wayland bar, and the Mango source of
the window-title module, as a library whose behaviour is stated in contracts
and proved.

`src/` is the library:

- `config` — the switcher's configuration: display mode, active indicator,
  colors, the per-tag overrides (`TagMap`) and how their keys are read and
  written.
- `service` — the compositor's IPC protocol: the replies, the commands, the
  outcome of a dispatch, the focused client.
- `tags` — which monitors' tags a bar draws from, which buttons it shows (tags in use first, then idle tags and
  then placeholders up to the minimum count, never on an index that an
  ignore pattern hides; sorted by index), what each is built from, and which
  tag scrolling moves to.
- `button` — what a tag button shows and its CSS classes.
- `styling` — the switcher's and the separator's CSS.
- `workspaces` — clicks, scrolls, refreshes and their order, the border
  classes and the watchers' decisions.
- `window_title` — the focused window from the compositor's answers.
- `settings` — the settings page.
- `decimal`, `text`, `glob` — decimal numbers, text search and white space,
  glob patterns.

`app/` connects the library to the compositor's socket (tokio), reads and
writes the configuration (serde, schemars), and converts fractional sizes to
pixels.
