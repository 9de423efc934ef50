# bongo_cat

The logic of a desktop companion (a cat that chats, speaks and remembers), written in
Verus and proved against its contracts.

`src/` is the verified library:

- `context` builds the messages sent to the chat model within a token budget;
  `sources` reads what they are built from (summary files, the stored profile, today's
  messages); `extract` finds the JSON document in a model's answer; `stream` reads
  streamed answers.
- `facts` filters, merges, ranks and retrieves the facts remembered about the user;
  `profile_update` and `profile_reply` rebuild the user profile; `summaries` writes the
  weekly, monthly, quarterly and yearly summaries; `calendar` says which are due.
- `config`, `prompt`, `tts`, `window`, `model3d` hold the settings, the speech requests,
  the chat window placement and the 3D model index.
- `keyed`, `rank`, `text`, `json`, `ids` are the shared building blocks.

`app/` is the application around it: files on disk, the chat and speech servers over
HTTP, and the hourly summary timer. `tests/` exercises the library.
