# s3_tui

A terminal browser for S3 buckets. The library in `src/` holds what the
program decides, each function with a contract proved by Verus: object
paths and file names, the file tree built from a bucket listing (what
shows, what is selected, which folders are open), the plan of a multipart
upload and the start of a download, the progress lists of transfers, the
profile forms and lists, and the key handling of every screen.

`app/` runs it on a terminal: the event loop, drawing with ratatui, the
calls to the S3 endpoint, and the profiles kept in the system keyring.
`tests/` exercises the library on concrete values.
