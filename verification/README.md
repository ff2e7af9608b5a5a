# OW Server Blocker

A Windows app that blocks selected Overwatch 2 server regions for
`Overwatch.exe` only, through one outbound Windows Firewall rule named
`OWServerBlocker - Overwatch.exe`.

The logic of the app is a Verus library whose functions carry contracts that
Verus proves:

- `src/ip.rs`, `src/address.rs`: the IP, CIDR and range grammar and the
  canonical text of each address; address lists with comments and duplicates.
- `src/canonical.rs`: the canonical text of an address reads back as the
  address, so normalizing a normalized address changes nothing.
- `src/server.rs`, `src/server_data.rs`: the server regions, their targets and
  address ranges; region ids and their older spellings.
- `src/plan.rs`: the plan that a rule is made from, its checks, paths (joining
  and file names, Windows prefixes included), and the search for the game's
  executable (install locations, Steam libraries).
- `src/firewall.rs`: the rule's description, the status read back from a rule,
  the action taken for a plan and the reports shown to the user.
- `src/settings.rs`: the settings file, its location, its text and its parser.
- `src/idset.rs`: the set of selected target ids, kept sorted.
- `src/session.rs`: the selection the app starts with, the settings it saves,
  and the plan for the current selection.
- `src/latency.rs`: which address of each target is pinged and how a result
  is shown.
- `src/text.rs`: the text functions of `str` that the rest is stated with.

`app/` is the window (eframe), the file dialog (rfd), the settings file on
disk, the latency pings on background threads, and the Windows Firewall COM
calls. `tests/` runs the library on concrete values.
