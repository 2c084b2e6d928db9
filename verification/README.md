# hidpp_core

The decisions behind talking to a Logitech HID++ mouse over a hidraw node,
written in Rust and proved with Verus. The library does no input or output.

- `frame`: the packets that go out and the frames that come back.
- `exchange`: one request, its tries, and the wait for its reply.
- `device`: the place that requests go to, and their software ids.
- `discovery`: which nodes to try, in what order, and what to report.
- `ready`: searching again and again until a device is found or the time is up.
- `dialog`: operations as conversations, one request at a time.
- `features`, `name`, `battery`, `dpi`, `rate`, `button`, `profile`: the
  operations.
- `text`: splitting, trimming, and number formats.

`app/` opens, reads and writes the nodes, and carries the operations out.

One thing is taken on trust: that `String::from_utf8_lossy` decodes UTF-8, that
what it makes of other bytes depends on those bytes alone, and that it makes no
more characters than there are bytes.
