# shortcut_release_helper

Finds the Shortcut stories, and their epics, that a future release brings, and
writes release notes from a template.

`src/` is the library, verified with Verus. It does no I/O:

- `links`: which story a commit message points to;
- `commits`: the commits of a release, and the stories they belong to;
- `retrieval`: fetching each item at most once, and answering everyone who asks;
- `tasks`: when a loop that runs tasks off a stream has come to its end;
- `shortcut`: stories, their ids, and the choice of stories by label;
- `release`: the stories and epics that a release consists of;
- `summary`: the closing summary for the terminal;
- `ids`, `decimal`, `repositories`: lists of ids, numbers in decimal notation,
  values by repository.

Functions whose names start with `law_` are theorems about the library as a whole.

`app/` is the command-line tool: arguments, configuration, Git, the Shortcut API
and the template. `tests/` holds the tests of the library.
