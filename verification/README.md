# orna_artifact

Canonical Orna artefacts and the application boundary, verified with Verus.

An artefact is a self-contained byte string that a compiler hands to a runtime.
Every format of this crate has exactly one encoding for each value, and every
decoder checks its complete input before it returns anything. Both are proved:
decoding undoes encoding, whatever decodes is the encoding of what it decodes to,
every strict prefix of an artefact is refused as truncated, and anything behind
an artefact is refused.

## Layout

| Module | What it holds |
| --- | --- |
| `big_endian`, `identity`, `artifact_codec`, `text` | integers, identities, readers, writers and rendering |
| `constant_expression` | constant artefacts |
| `client_plan` | client plans, versions 1 to 10 |
| `server_mutation_plan` | INSERT, UPDATE and DELETE plans |
| `parameter_artifact`, `server_json_encode`, `server_csv_encode` | artefacts that pin one parameter |
| `resolved_type` | resolved semantic types |
| `application` | admission, table effects, digests and live answers |

Each executable function states its result through specification functions:
`encoded_*` and `decoded_*` say what a codec gives for every input, errors
included. Laws that relate several functions are public proof functions named
`law_*`.

`app/` is the host side of the application boundary. It is ordinary Rust: it calls
the parser, evaluator, value codec and runtime that a host supplies, and leaves
the decisions between those calls to the library.

## What is trusted

Four small functions call code that is not verified here: `str::from_utf8`,
`char::is_alphabetic`, `char::is_numeric` and `sha2::Sha256::digest`. Their
contracts say what is claimed of those calls.
