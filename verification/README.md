# dpi_bypass

A network tool that makes a TLS connection harder to recognise for deep packet
inspection: the first write of a connection is cut in the middle of the
server name of its ClientHello, and fake TCP segments with a short time to
live are sent beside the real ones.

- `src/` is the verified library: the ClientHello scanner
  (`fragmenting::sni_parser`, `sni_parser`), the IPv4/TCP header readers and
  writers (`tcp_ip`, `fragmenting::fake_ttl`), the write-splitting state of a
  stream (`fragmenting`), the netfilter-queue decision (`net_filter_queue`),
  the SYN-ACK matcher (`capute_isn`), the known-addresses lookup (`all_ip`)
  and the TLS and packet-filter setup (`for_main`).
- `app/` is the program around it: sockets, raw channels, the netfilter
  queue, files, processes and the async runtime.
