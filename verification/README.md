# prism_lb

A simple layer 7 load balancer. The library (`src/`) holds its decisions,
each with its contract proved:

- `backend`: a backend's address, port and health path, its count of failed
  health probes, its `address:port` text and the URI of its health probe;
- `config`: the configuration read from the YAML file;
- `server`: the pool in service, round-robin selection, health rounds, and the
  checking of the configuration's backend entries, with the laws of
  round-robin order and fairness and of the health rounds;
- `decimal`: decimal text of numbers and the parsing of port numbers;
- `uri`: the `http` URIs by which backends are reached;
- `tcp_pool`: a pool of connections handed out and returned.

`app/` is the program around it: reading the configuration file, listening,
forwarding requests with `hyper`, and probing backends on an interval.
