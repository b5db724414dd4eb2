# nitro

A downloader that fetches large files in parallel parts, takes interrupted
downloads up again and checks files against a SHA-256 hash.

`src/` is the library, verified with Verus. It holds what the downloader
decides and computes:

| module | contents |
|---|---|
| `text` | decimal numbers, separators, white space, letter case |
| `chunks` | how a file is divided among the workers |
| `worker` | the worker of one chunk: requests, writes, retries |
| `headers` | the headers of requests and answers |
| `metadata` | the record beside an unfinished download, `<file>.meta` |
| `engine` | the course of a download up to the decision what to do |
| `multi_part`, `single_stream` | a download in parts and one in one stream |
| `disk`, `recovery` | what interruptions leave on disk, and why a download that is reported as complete is the server's file |
| `verify` | the check of a file against its hash |
| `prompt` | what is typed at the prompts |
| `clock` | the time of day |

`app/` is the program around it: the HTTP client, files, progress bars and
prompts. `tests/` runs the library on concrete values.
