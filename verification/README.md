# dracon-sync

The verified core of a background git sync: it watches workspace
repositories, commits settled changes and pushes them to their forges.

- `src/` is the library, written in Verus. Each public function carries
  a contract (`requires`/`ensures`) over a mathematical model of its
  inputs (`Seq<char>` for text, `Seq`/`Map`/`Multiset` for collections)
  and is proved against it. Laws that relate several calls are public
  proof functions (`lemma_*`).
  - `text`, `path`, `ordered`: character-level parsing, Unix path
    syntax, the order of strings.
  - `exclude`: which changed paths are staged, restored or ignored.
  - `forge`: per-forge incident detection and recovery.
  - `git::discovery`, `git::submodules`: the walk of the watch roots,
    excluded repositories, nested repositories, `.gitmodules`.
  - `git::ops`, `git::push`: progress and idle deadlines of a running
    git, failure messages, the push retry schedule and its fallbacks.
  - `git::staging`, `git::status`: unstaging, large blobs, history
    rewrites, restores; remotes, upstreams and readiness.
  - `hooks`, `role`, `vanished`: history-guard hooks and automatic gc,
    repository roles, the ledger of vanished repositories.
  - `sys`: the few calls into `std` and `serde_json` whose contracts are
    trusted rather than proved.
- `app/` is the program around the library: it reads files, runs git,
  sleeps between retries and persists state as JSON.
- `tests/` runs the library on concrete inputs.
