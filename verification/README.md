# gmod_wstool

The logic of a Garry's Mod workshop tool, verified with Verus: reading workshop ids
from what the user types, the addon whitelist and its upstream header, the download
queue with its limit on running downloads, the scan of the download folder, decoding of
`.gma` archives, and the fields of the item editor.

- `src/` is the verified library. `text` holds the character-level helpers;
  `whitelist` the whitelist; `steam` the download states, jobs, items and connection
  status; `tabs` the download queue and the workshop editor.
- `app/` is the unverified part that talks to Steam, the network and the file system,
  and hands the library plain values.
- `tests/` runs the library on concrete inputs.
