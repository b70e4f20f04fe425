# nfs

Streams that arrive as files on an NFS export: NFS version 3 over ONC RPC,
from both ends, as a library whose behaviour is stated in contracts and proved
with Verus.

Nothing in the library opens a connection. A `Sending`, a `Receiving` and a
`Client` have a message to send and take the record that came back; a `Session`
takes a record and has the reply to send. `app/` holds the sockets and the
transport traits around them.

| module | what it is |
| --- | --- |
| `cursor`, `writer`, `xdr`, `text` | fields on the wire: integers, padded bytes, strings |
| `status`, `procedure`, `mount` | arguments and results, put and taken |
| `rpc` | calls, replies, and the records that carry them |
| `files`, `session` | one export in memory, and the server's side of a connection |
| `client`, `exchange` | the client's side: single calls, and whole sends and receives |
| `target`, `arrived` | what a send is addressed to, and what a Stream came from |
| `conversation` | what the two sides come to together |

The last is where the library's promises meet: a Stream that is sent is
committed whole (`sent_is_committed`), every file of an export is received whole
and in order (`everything_is_received`), and what is sent is what is received
(`sent_is_received`), for every length that is kept and every name of up to the
sixty-four bytes of a file handle, but the name of a single null character, whose
bytes are the root's handle. A file called `.` or `..` is sent like any other and
is not received. The credentials, the path of the export and the listing have to
be short enough to cross as records: a record of more than `max_body` bytes and a
chunk is refused by whoever reads it, and `modest_sendings_cross` and
`modest_receivings_cross` say what is always short enough. A listing that is not
is refused (`long_listings_are_refused`).
