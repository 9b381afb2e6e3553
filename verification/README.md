# packet_forwarding_service

A packet forwarding service that classifies the application behind each conntrack flow
with a CNN and steers the flow's packets by firewall mark.

- `src/` is the verified library (Verus):
  - `classification::model`: traffic classes, the winning class of the model scores,
    and the model input window of a payload (laid out on a 28 x 28 image, scaled with
    the `image` crate's triangle filter, centre-cropped).
  - `server::route`: the sample-collecting flow table, forwarding marks, pruning and
    the ingress loop's decisions; `server::ingress`: the packet-buffering variant.
  - `server::classify`, `server::monitor`: worker outcomes, metrics, the CSV rows, the summary
    line and the monitor loop's decisions.
  - `server::server`: IPv4 header descriptions for the diagnostic redirect loop.
- `app/` runs the threads: Netfilter queue I/O, channels, ONNX inference, CSV files, logs.
- `tests/` exercises the library.
