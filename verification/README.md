# pdf_signer

A library to digitally sign PDF documents (PAdES B-B up to B-LTA) with a PKCS#12
keystore, and to verify their signatures, written in Verus: every function states in its
contract what it returns, and Verus proves it.

## Layout

- `src/` is the verified library.
  - `object`, `writer`, `incremental`, `document`, `update`, `placeholder`, `appearance`:
    PDF objects, incremental updates, signature dictionaries and their appearance.
  - `lexer`, `filters`, `reading`: what is told of a file from its bytes alone, before it
    is handed to the parser.
  - `signer`, `keystore`, `signed_data`, `timestamp`, `tsa`, `http`, `material`, `dss`,
    `sign`: CMS signatures, RFC 3161 timestamps, validation material, and signing step by
    step.
  - `locate`, `verify`, `certificate`, `names`, `policy`, `revocation`, `trust`: finding
    and verifying signatures, and RFC 5280 path validation.
  - `testkit`: sample documents, certificates and keystores.
  - `*_laws`: what holds of the library as a whole, such as that signing keeps the
    original bytes, that earlier signatures stay valid and reported at every level, that a
    signature that was made verifies, and that a chain is trusted exactly if it leads to a
    trusted root.
- `app/` is ordinary Rust around it: files, the network and floating-point layout.
- `tests/` runs the library with the outside crates.

Signing never opens a connection by itself. It hands out what has to be fetched
(`Step::Fetch`), and `resume` goes on with the reply.

## What is trusted

Parsing of PDF, X.509, CMS and PKCS#12, image and font decoding, digests and signature
schemes come from outside crates, each behind a small function whose contract is believed
and not proved. Such a function either says what the crate documents, or gives its result
a name that the other contracts speak of.
