# rust4diva

A mod manager for Hatsune Miku: Project DIVA Mega Mix+, whose core is verified with Verus.

- `src/` is the library. Its functions are verified against their `requires`/`ensures`,
  except the few marked trusted, which call an outside crate or std and whose contracts
  are taken as given:
  - `modmanagement`: installed mods, the global load order (moving rows, merging newly
    found mods), which archives unpack as they are, download progress reports;
  - `modpacks`: mod packs, the pack menu and editor, switching packs, the load order
    written for DIVA Mod Loader, file names of pack folders and files;
  - `config`: the configuration, its upgrade from the older format, the settings window;
  - `language`: dictionaries of the user interface and their overrides;
  - `gamebanana`, `gamebanana_async`, `divamodarchive`, `search`: the two mod sites, their
    one-click links, requests and what the search page shows;
  - `diva`, `firstlaunch`: finding the game folder, importing from DIVA Mod Manager;
  - `strmap`, `text`, `pattern`, `vdf`: a string-keyed map, text and path helpers, regular
    expressions, KeyValues documents (Steam's library list).
- `app/` is a command-line program around the library: files, network, local sockets.
- `tests/` runs the library on concrete values.
