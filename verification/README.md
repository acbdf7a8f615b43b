# youtube_summarizer_server

A server that summarizes YouTube videos. It fetches a video's captions and metadata with
`yt-dlp`, cleans the WebVTT captions, splits long transcripts into overlapping chunks of words
and has a chat completion model summarize them, streaming the summary to the browser and
keeping it in PostgreSQL.

- `src/` is the library, verified with Verus: text handling, caption cleaning, chunking and its
  laws, the summary pipeline's decisions, the completion requests, the yt-dlp command line,
  URLs, errors and the ticket store.
- `app/` is the server around it: settings, database, HTTP routes, the completion endpoint and
  the `yt-dlp` process. Given a video URL as its argument, it prints the video's article
  instead of serving.
- `tests/` runs the library on concrete inputs.
