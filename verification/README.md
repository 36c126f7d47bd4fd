# otap_dataflow

Authentication extensions and the run summary of a dataflow engine, as a verified library.

- `bearer_token`: secrets, bearer tokens, and the handle through which consumers read the latest
  token.
- `azure_identity_auth`: acquires Azure AD tokens, broadcasts them and schedules their refresh;
  `retry` tells how long to wait after a failed request.
- `auth`, `bearer_token_auth`, `middleware`: authenticate requests by their headers, and turn away
  from a gRPC service those that are refused.
- `control`: what reaches an extension over its control channel.
- `stats`, `report`: the summary of a run, with the number of uploaded records out of an admin
  endpoint's counters.
- `text`, `number`, `decimal`, `binary64`: lines, words and numbers of a text; arithmetic in
  binary64 precision is carried out on integers.

`src/` is the library: Verus proves its functions' contracts. What it takes from other crates and
from parts of the standard library without a specification stands behind functions marked `external_body` and `assume_specification` items, each with
a comment that names the outside function and says what is claimed of it. Where a result rests on
time or chance, a function beside it takes the reading or the draw as an argument and is exact.

`app/` runs the library: configuration, the extensions' loops, the gRPC middleware, network and
console. `tests/` runs it on values.
