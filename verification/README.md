# wisp

The core of Wisp, a client for sing-box-compatible proxy servers (VLESS +
REALITY/XHTTP, VLESS + Vision, Hysteria2) with per-app split tunneling,
written as a Verus library whose behaviour is stated in contracts and
proved.

## Layout

- `src/` — the verified library:
  - `parse` — importing a profile from sing-box outbound JSON or from
    `vless://` / `hysteria2://` share links;
  - `profile` — profiles, slug ids and id disambiguation;
  - `split`, `presets` — the split-tunnel model and built-in rule presets;
  - `singbox` — generating the complete sing-box configuration (TUN
    inbound, outbounds and selector, DNS, routing rules, Clash API);
  - `engine`, `clash`, `resources`, `settings`, `elevation`, `store`,
    `cli` — the decisions of the engine runner, the Clash API client,
    resource lookup, settings, and the app's profile/rule bookkeeping;
  - `json`, `share_url`, `text`, `error` — the JSON model, the parsed
    share-link URL, character helpers and errors.
- `tests/` — tests of the library.
- `app/` — the `wisp` command-line program: argument parsing, file and
  process I/O, the HTTP calls to the Clash API, and the run loop.
