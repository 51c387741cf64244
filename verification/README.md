# sda

Secure distributed aggregation: a recipient opens an aggregation, a
committee of clerks is chosen among the registered agents, participants
send their input split into one encrypted share per clerk, and a snapshot
closes the aggregation and hands each clerk the column of shares meant for
it. Once enough clerks have answered, the recipient fetches the result.

The library under `src/` is written in Verus and verified:

- `crypto`, `byte_arrays`, `ids`, `helpers`, `resources`: the protocol's
  resources and the parameters of its schemes;
- `table`: ordered tables from identifiers to values, the storage model;
- `stores`, `aggregations`, `clerking_jobs`: the server's stores;
- `server`: the workflow over the stores (snapshots, clerking, results,
  authentication tokens);
- `service`: the workflow behind access control;
- `http`, `routes`: what the REST binding decides itself (the caller a
  request's `Authorization` header names, the endpoint its method and url
  name, the status of an error);
- `encoding`: base64 through `data_encoding`.

`app/` holds the `sdad` daemon: command line, HTTP with `rouille`, JSON
with `serde`, and the state kept in a `jfs` file store.
