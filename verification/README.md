# veebot

A Discord assistant bot: it searches UnionCrax for games, answers questions
through a chat-completion service with the conversation as context, keeps
memories and birthdays, and manages a few server settings.

The decisions the bot makes are a library verified with Verus (`src/`):

- `text` — string operations on character sequences (trim, find, replace,
  split, join, decimal digits, UTF-8 lengths) with exact specifications.
- `embeddings` — the word-overlap similarity of two texts as an exact
  fraction, with its laws (symmetric, between 0 and 1, 1 for equal texts
  with at least one word).
- `search` — query normalisation, game scoring, the choice of the best three
  games, URL encoding and web-result extraction.
- `database` — stored records, message-type encoding, schema splitting and
  the SQL texts the backends run.
- `context` — the context given to the AI: how entries are gathered, how
  recent messages fill it, how it is ordered, the answer cache, and the
  lookup of a question's context step by step between database queries.
- `ai` — the request sent to the service, the cleanup of its reply, and the
  memories kept from questions.
- `config` — `.env` files, settings from environment variables, number
  parsing, and the database target.
- `bot` — command dispatch and every command's answers, the reply decision
  for messages, and the registered command table.
- `selection` — choosing the first items of a list by a strict total order,
  and that such a choice is unique.

`app/` is the program around it: the Discord gateway (serenity), the
databases (sqlx), HTTP (reqwest), the environment, and the few
floating-point values the bot shows. `tests/` runs the library on concrete
inputs.
