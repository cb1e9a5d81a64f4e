# ossutil

A command-line uploader for Alibaba Cloud OSS (upload with automatic
multipart for large files, resumable uploads, listing, deletion), whose
core is verified with Verus.

- `src/` — the verified library: name and endpoint validation, content
  types, configuration merging, V4 request signing (canonical URI, query,
  headers, string to sign, authorization), XML response parsing over the
  `quick-xml` event stream, error construction, multipart planning and
  resumption, listing pagination, and the text of reports. Calls into
  `hmac`, `sha2`, `sha1`, `hex`, `base64`, `urlencoding` and `quick-xml`
  stand behind small trusted wrappers whose contracts are documented where
  they are declared.
- `app/` — the program around it: command-line parsing, files, HTTP,
  timestamps, concurrency and progress bars.
- `tests/` — tests of the library through its public interface.
