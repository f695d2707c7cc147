# SideWire

Messages and files between the devices of one person: on the local network,
where one device hosts a room and the others join it, or through a relay, with
everything encrypted on the device under a key that comes from the password of
the room.

`src/` is a library that Verus proves against its contracts. It holds the rules:

- `room`, `api`: rooms, who is admitted to them, and what is answered to a device
- `messages`, `files`: the conversation, its files, and how they are kept
- `crypto`, `encoding`, `frame`, `remote`: keys, encryption, and what is relayed
- `discovery`: how rooms are announced and found
- `conversations`, `cleanup`, `startup`: saved conversations, old files, the start
- `naming`, `text`, `clock`: safe names, text and time

What is taken on trust about other crates and the standard library stands in the
functions marked `external_body` and in one `assume_specification`, for
`String::push`, each with the facts it claims. Three error types of other crates
are declared without their contents, and six spec functions without a body name
what an outside function returns where a contract does not spell it out.

`app/` is the program around the library: the HTTP server, datagrams, files, JSON
and the commands of the user interface.
