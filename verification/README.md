# lunatech-betting

A football prediction game for groups of colleagues and friends. Players bet on
scores, collect points, jokers and badges, and hear about kickoffs, goals and
results by mail and push.

`src/` is the game itself, written in Rust and verified with Verus: every function
states what it does in its contract, and the laws of the game are proof functions
next to what they speak of.

| Module | What it holds |
| --- | --- |
| `models`, `scoring` | matches, predictions, when bets close, what they earn |
| `bets`, `import_bets` | placing predictions and jokers, copying them between spaces |
| `achievements`, `profile` | badges: who earns them, and the page that shows them |
| `football_data` | what the feed says of a match, and how it is taken over |
| `invitations`, `tokens`, `dev` | joining a space and signing in |
| `today`, `matchday`, `leaderboard` | the matchday screen and the ranking |
| `notifications` | reminders, rank alerts, live scores, badge and daily mails |
| `schedule` | what the background jobs do next, and the command line |
| `clock`, `ordering`, `text`, `json`, `i18n` | instants, order, texts, JSON, languages |

`app/` is the server around it: the database, the feed, the web pages and the jobs.
It converts rows and forms to the library's types, tests what a function asks for,
calls it, and stores or sends what comes back.

`tests/` runs the library on concrete cases.
