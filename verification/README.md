# dns_postmortem

Post-mortem analysis of captured DNS traffic, written in Verus: what the library
computes is stated in contracts and proved.

A capture is a list of Ethernet frames with their times. The library takes the
DNS messages out of them, matches queries and responses, tells what is unusual
about them, and names the most likely root cause.

| Module | Content |
|---|---|
| `wire`, `text`, `address`, `domain` | integers in byte buffers, texts, address forms, base domains |
| `seqs`, `tables` | sequences and their views, rows with keys as maps |
| `net` | Ethernet, IPv4, UDP and TCP |
| `dns` | messages (RFC 1035), name compression, EDNS0 (RFC 6891), length prefix over TCP |
| `event` | events, their severity, counts over them |
| `ttl`, `nxdomain`, `answered` | what is remembered of times to live, of NXDOMAIN responses, of answered transactions |
| `analyzer` | the matching of queries and responses, message by message |
| `root_cause` | causal chains and the primary cause |
| `report` | the report on a whole capture |
| `laws` | what holds of the library as a whole |

Each type that holds text or a collection has a model, its view, and each function
says in its contract what it returns over these models. `laws` holds the properties
that span several functions, as proof functions: that a name is read back as it was
encoded, that pointer loops are rejected, that a query waits until its own response
comes, that reports are made once, and that what a capture holds is found in its
report.

Times are kept in whole microseconds. The directory `app` holds what runs in a
browser: it converts the report to seconds and milliseconds and hands it to
JavaScript.

One item is trusted: `text::utf8_text`, which calls `std::str::from_utf8`.
