# cdn_cache

A small content-delivery cache, verified with Verus.

- `src/cdn.rs`: a node (id, address, weight, health) with a bounded,
  expiring cache of string entries; reads return the last value written
  under a key or nothing.
- `src/cache.rs`: the registry that groups nodes by application, invalidates
  a key across an application's nodes or on one node, and asks the load
  balancer for a node.
- `src/loadbalancer.rs`: round-robin and weighted random selection, and a
  round of health checks.
- `src/handler.rs`: what the HTTP endpoints decide and answer.
- `src/error.rs`: the error type and its messages.
- `src/outside.rs`: the contracts assumed of `dashmap`, `moka`, `rand` and
  `std` calls.
- `app/`: the actix-web server, the invalidation listener, configuration
  loading.
