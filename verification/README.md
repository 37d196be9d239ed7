# vnc_server

The protocol core of a small RFB (VNC) server, verified with Verus, and a
standalone server around it.

`src/` is the verified library. It does no input or output; a host program
performs the reads and writes that it asks for.

| module      | what it holds                                                        |
|-------------|----------------------------------------------------------------------|
| `rect`      | rectangles of pixels, their intersection and union                   |
| `damage`    | the rectangle that differs between two frames                        |
| `frame`     | the frame that is published to, and the history of its damage        |
| `pixel`     | pixel formats, and the encoding of rectangles in them                |
| `config`    | server settings and input events                                     |
| `auth`      | the VNC password challenge                                           |
| `handshake` | the opening of a session, for clients of RFB 3.3, 3.7 and 3.8        |
| `client`    | the reader of client messages                                        |
| `update`    | the answering of update requests                                     |
| `bytes`     | big-endian integers and bit reversal                                 |

Functions named `law_*` state what holds of the library as a whole: that no
changed pixel escapes the damage since an earlier frame, that a client that
paints what it is sent shows the frame, that nobody gets past a password
without it, that a stream of messages is read without loss.

What is trusted and not proved is in `auth`: that the `des` crate's cipher is a
function of key and block, and that the `rand` crate's bytes are any bytes.

`app/` is the server itself: sockets, threads and locks. There is no TLS; bind
to `127.0.0.1` unless something else controls access.
