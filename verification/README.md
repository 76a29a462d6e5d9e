# lnemail

The LNemail provider of a mail client: a disposable mailbox that is paid for
over the Lightning Network and reached over a REST API with a bearer token.

- `src/` is the library, verified with Verus. It decides and computes: which
  calls are accepted and what they ask of the service (`call`, `params`,
  `http`), what is made of the replies (`resource`, `dates`), how a message is
  taken apart to be sent (`outgoing`), how an invoice is drawn (`qr`), and how
  what was sent is kept on this device (`sent_cache`, `entries`). `laws` states
  what holds across them. It neither reads nor writes anything.
- `app/` is the transport, the credentials and the files around it.
- `tests/` runs the library.

What the library has from other crates (MIME, dates, QR codes, base64,
encryption, header values) stands behind small functions whose contracts are
taken on trust. Each names the function that it calls.
