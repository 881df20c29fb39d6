# Grotto

A chat for small groups, encrypted end to end. A relay orders and keeps what clients
send without being able to read it. Clients keep their own history, journal what they
send before they send it, and catch up with the relay whenever they meet it.

The library in `src/` holds the rules of both sides, and its functions are verified
with Verus. What they take from other crates (the integers of the encoding, hashes,
keys and signatures, random bytes, PEM files, certificates and group messages) stands
behind small functions whose contracts are trusted, not proved; each says so above
itself. Time and what the system says are handed in. Identifiers, challenges, tokens
and new keys are drawn at random by the functions that make them; beside each stands
one that takes what was drawn and says exactly what becomes of it.

- `ids`, `delivery`, `messages`, `requests`: what is sent, with its limits.
- `wire`, `varint`, `protocol`, `frames`, `transcripts`: how it is encoded, framed and
  signed.
- `table`, `order`, `sequences`, `collections`, `text`, `bytes`, `sizes`,
  `arithmetic`: what the rest is built from.
- `crypto`: hashes, keys, signatures and random bytes, from other crates.
- `relay`: enrolment, the handshake, sessions, storage limits, and the tables with the
  requests that read and change them. Laws over whole runs stand in `relay::laws`,
  `relay::sound`, `relay::pages`, `relay::index` and `relay::hub`.
- `client`: the journal, attempts, synchronization, welcomes, contacts and history.
  Laws stand in `client::laws` and `client::pages`.

Neither side writes while it decides. A function of the library plans a list of
changes, the program writes them in one transaction, and the library then takes them
into its tables, all of them or none.

The program around it is in `app/`: sockets, TLS, SQLite, MLS groups and what a client prints.
`tests/` runs the library, with real groups and real keys.
