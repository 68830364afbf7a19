# samples

Small services and tools whose logic is verified with Verus:

- `src/npmjs`: an npm registry served from a directory of tarballs: tarball
  names, the `package.json` files inside a tarball, the registry's package
  and version documents.
- `src/pypi`: a PyPI simple repository: PEP 440 versions and their order
  (with the laws that spellings of a phase, and separators around and
  inside the pre, post and dev parts, do not change the version read),
  sdist and wheel names, the project list and project pages.
- `src/html2md`: an HTML document tree and its conversion to Markdown lines,
  with the laws that a conversion only appends and never writes a line break
  into a line.
- `src/rss2md`: the entries of RSS channels and Atom feeds, and their
  sections as printed Markdown lines.
- `src/wsgi`: the head of an HTTP request, the WSGI environment, the head
  of a response.
- `src/aes256`: AES-256-CBC with PKCS #7 padding under a 48-byte secret.
- `src/field_attr`, `src/grpc`: small records and decisions of two samples.
- `src/assoc`, `src/text`, `src/paths`, `src/digest`, `src/time`, `src/host`:
  shared helpers.

`app/` holds what is not verified: the servers and command-line programs,
file and network I/O, the serde forms of the records, and the Python side
of the WSGI server. `tests/` runs the library on concrete inputs.

Not here: the gRPC client and server plumbing (their protocol definitions
are not part of the sources; only the text of the download stream's
messages is kept), and the WMI and WinRM samples, which are Windows COM and
remote-management I/O through the `windows` crate with nothing to verify.
