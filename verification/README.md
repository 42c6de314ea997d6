# pqvpn

A VPN built from primitives: a hybrid Noise_IK handshake (X25519 and
ML-KEM-768), a symmetric ratchet with a key per packet, a periodic DH and KEM
ratchet, XChaCha20-Poly1305 packets with constant-size padding and a sliding
replay window, and an optional disguise as DTLS records.

`src/` is the library. It is written in Verus: functions state what they do in
`requires` and `ensures`, and the proofs are checked by the verifier. Of random
bytes and of clock readings nothing is stated; what is done with them stands in
functions that take them as arguments.
Properties that span several functions are public proof functions whose names
start with `law_`.

- `bytes`, `padding`, `replay`, `ratchet`: encodings, padding, the replay
  window, the per-packet chains
- `primitives`: the outside libraries, behind contracts that are trusted
- `keys`, `noise`, `dh_ratchet`: key material, the handshake, the rekeys
- `handshake_wire`, `obfuscation`: the wire formats
- `session`, `vpn_session`: packets within an epoch, and across epochs
- `exchange`, `forwarding`: the decisions of the daemon's loops

`app/` is the daemon around it: command line, TUN device, sockets, dashboard.
`tests/` holds the tests.

What is proved does not include secrecy. The contracts speak of the primitives
by name, and that a message opens to what was sealed is taken from them.
