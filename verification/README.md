# slmp

A client for the Seamless Message Protocol (SLMP), by which the PLCs of Mitsubishi Electric are
read, written and controlled: binary mode, 4E frames. The library is written in Verus: what each
function returns or changes stands in its contract, and Verus proves the code against it.

## Layout

- `src/` is the library. It decides and computes, and performs no I/O.
  - `frame`, `props`: response frames and request headers
  - `client`: the conversations of one connection (connecting, one request)
  - `unit`, `write`, `read`: unit control and device access
  - `manager`, `monitor`: several connections, and the task that reads monitored devices
  - `error`: what can go wrong, and how it is told apart
  - `device`, `address`: devices, values and socket addresses as plain data
  - `order`, `bytes`, `text`: stable sorting, words and bits, numbers as text
- `app/` performs: sockets, deadlines and tasks on tokio, and settings that serde can store.
- `tests/` runs the library on concrete values.

## Errors

A request that the device rejects ends in `SlmpError::Device` with the end code. A whole frame has
arrived by then, so the connection can be kept. `SlmpError::Framing` means that the frame itself is
broken, and the connection should be dropped. The length of a frame is checked before its end code
is read; `frame` proves what follows from that.

Every operation hands the error of its request on as it is. The end of the stream is an error of the
transport, `SlmpError::Io`.

## Laws

The functions named `law_..` state what holds across several functions: what comes back from a
well-formed response, that sorting loses nothing, that every monitored device reaches its
connection, and so on.

## Trust

Four functions call the standard library and are believed rather than proved: `kind_of`,
`new_io_error` and `io_error_text` in `error`, and `decode_lossy` in `unit`. Their comments say what
is claimed of each.
