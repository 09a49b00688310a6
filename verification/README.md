# keys_engine

The vault engine of a password manager. A KDBX vault is mirrored into a local
encrypted database, edited and read there, reconciled with the vaults of other
devices, and watched for changes made by others.

`src/` is the library. It keeps the database's tables as values and holds the
rules by which a vault is written to them, read from them, and brought together
with another device's; Verus proves each function against its contract. Edits of
entries and groups, searches and smart folders are statements of an embedder's
own, whose outcome the engine tells.

| modules | what they hold |
| --- | --- |
| `text`, `order`, `time`, `codec` | text, orders, instants, base64, UUIDs, hosts |
| `crypto`, `fingerprint`, `key_provider` | sealing, password fingerprints, the database key |
| `vault`, `rows`, `history_snapshot`, `table`, `mirror`, `copying` | the vault and the tables that mirror it |
| `ingest`, `reading`, `reading_laws`, `queries`, `details` | writing a vault, reading it back, asking about it |
| `peer`, `peer_laws`, `conflict_rows`, `conflict_laws`, `conflict_resolution` | other devices, held conflicts, decisions |
| `settings`, `meta`, `meta_tables`, `properties`, `migrations` | metadata, its tables, the schema |
| `engine`, `engine_access`, `events`, `file_watcher`, `model`, `error` | the engine itself |

`tests/` runs the library with the real crates behind it.

`app/` is what stands around it: the database, the file system, the file
watcher, and the JSON of stored records. Reading and merging KDBX files is left
to an embedder, through the `VaultFormat` trait.
