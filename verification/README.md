# pr0dl

A command-line downloader for pr0gramm.com. It fetches media URLs from the item
API, page by page, and downloads them in parallel. Both parts can be taken up
again after an interruption.

- `src/` is the verified library. It decides which requests to make, what to
  make of the replies and when to try again, and knows the format of the URL
  list file. It does no I/O.
  - `api`: the client, pages and their retries, the fetch state
  - `media`: the URL of a medium
  - `url_list`: the URL list file
  - `download_file`, `file_names`, `rate_limit`: the download of one file
  - `downloader`: a run over a list of URLs
  - `cli`: from command-line options to a client
  - `headers`, `retry`, `text`: what the others share
- `app/` is the program around it: arguments, HTTP, files, progress bars, and the
  JSON of the state file and of the replies.
- `tests/` runs the library.

Proof functions whose names begin with `law_` state what holds across calls, for
example that a resumed fetch gives the same URLs as one that was not
interrupted.
