# bedwars

A small Minecraft server for bedwars, split in two.

`src/` is the library, written in Verus: the protocol's wire encoding
(VarInts, strings, identifiers, positions, UUIDs, light masks, paletted
chunk sections), the messages of the handshake, status, login,
configuration and play stages, the tag files and their expansion, the
registries sent during configuration, the conversion of registry JSON to
NBT, the names that the generated block types take, the starting world,
and the decisions of each connection handler. Every function carries a
contract that Verus proves; the laws of the library (what a read gives
back of a write, what placing a block keeps, how tags expand) are proof
functions.

`app/` is the program around it: configuration, reading the generated game
data from disk, the network loop, NBT and JSON encoding through `fastnbt`
and `serde_json`, and the play messages that carry floating point.

`tests/` runs the library on concrete values.
