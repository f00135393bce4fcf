# rooster

A small query builder and entity mapper for MySQL, written in Verus.

- `src/query.rs`: conditions, the query chain `Q` (`eq`, `like`, `and`, `or`,
  `set_tail`) and its rendering as the text of a `WHERE` clause.
- `src/lib.rs`: the `Rooster` client, its queue of operations, the `SELECT`
  text of the queue and the `INSERT` statement of an entity.
- `src/base_entity.rs`: entities, field values (`String`, `u32`) and loading an
  entity from a fetched row.
- `src/connection.rs`, `src/config.rs`: connection data and settings.
- `src/mysql_types.rs`: the `mysql` types and calls the library uses.
- `src/text.rs`: character-level string helpers.
- `app/main.rs`: the program: connecting, running statements, converting rows,
  and the `RoosterEntity!` macro.

## Dependencies

`mysql` is used without its default features, which would pull in TLS and
other parts the program does not need; `flate2` is named only so that
`mysql` has a compression backend to build with. `log` and `simple_logger`
serve the program in `app/`.

## Entities

The generic entity code (`map_to`, `create_entity_from_row`, the `INSERT`
statement of an entity) is verified against the contracts of the
`EntityInterface` trait, which state what every implementation owes. The
implementations that the `RoosterEntity!` macro writes are ordinary Rust and
are not checked against them; a verified implementation would have to turn a
`&mut` field into a `&mut dyn RoosterAtomicTypeInterface`, which Verus does
not support yet. `try_map_to` and `try_create_entity_from_row` return `None`
on the inputs that `map_to` and `create_entity_from_row` do not take.
