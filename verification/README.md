# rsbin

The logic of a small updater for tools published as GitHub release assets, with contracts that
Verus proves. It reads a configuration, renders the names under which a package may be published for
a platform, picks the asset of a release, selects files from the downloaded artifact, and tells where
they are installed. A second part judges safari tours by their pages and crawls listings of them.

- `src/`: the library. `config`, `template` and `render` hold the configuration and the forms of a
  package; `pattern`, `archive` and `select` pick files; `source` reads repository addresses;
  `install` has the lock file, the paths, and the replacement of a package's directory; `update` is
  the run over the packages; `tours` is the crawler; `text`, `order`, `paths`, `gather` and `failure`
  serve them all.
- `app/`: the command lines, the network and the file system around it.
- `tests/`: what the library does on concrete values.

A failure carries the texts that make up its message; `message` writes it out. Paths are texts that
are read as the platform reads them, by the `PathStyle` that is handed in.
