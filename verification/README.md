# xmtv_cast

Casts the episodes of the xmtv opera programme (斗阵来看戏) to a DLNA renderer.

`src/` is the verified library:

- `text`: character-level text operations (search, pieces, filtering, `u32` parsing).
- `json`: the `serde_json` calls that reading the listing needs.
- `listing`: reading the search API's answer into episodes (`VideoUrl`).
- `grouping`: grouping episodes into dramas, each sorted by date (`resort`).
- `playlist`: picking a drama at random and finding stream addresses on share pages.
- `store`: merging a fresh listing with the cache, and when the cache is stale.
- `dlna`: the media being cast, the SOAP arguments, and the playback session's phases.
- `control`: the casting loop's decisions and the menus' meanings.

`app/` is the program: HTTP, the cache file, the renderer, the prompts and the loops.
