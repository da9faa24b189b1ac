# taipei

Building blocks for servers that stay up under load, with their behaviour stated in
contracts and proved by Verus.

- `debt`, `limit`: a permit pool that can run a debt, and the concurrency limit built on it,
  which can be retuned while requests are in flight. Both serve a line, first come first.
- `backpressure`: readiness withheld while every core is busy.
- `queue`: a bounded queue that sheds on a deadline.
- `reject`: immediate rejection.
- `tenant`, `rate_limit`: who held the server up, and refusing a share of their traffic.
- `cpu_concurrency`: tuning a limit from a load signal.
- `clock`, `moment`: virtual time, and points in time on any clock.
- `compose`, `book`, `content`, `figure`: what the book about all this is made of.

`src/` is the verified library: plain state and the decisions taken on it. `tests/` runs it.
`app/` puts it to work: tower services, tokio timers and tasks, shared state, files.
