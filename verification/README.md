# QuickDrop

A small FTP server for local networks, with a window that starts and stops it and shows its log.
Its logic is a library that Verus proves correct against the contracts in its source.

- `src/` is the library.
  - `protocol`: the greeting, the lines that a client sends, the addresses.
  - `command`: what each command asks for and answers, as a model.
  - `handler`: the code that does so, proved against the model.
  - `session`: the state of one client, and the search for the real path of a virtual one.
  - `path`: what lies in the root directory, the virtual directory of a client, and how paths are
    joined and divided.
  - `listing`: the lines of a directory listing.
  - `journal`: the lines that the server adds to the log.
  - `config`, `control`: the settings and the window.
  - `text`: trimming, splitting, letter case, numbers.
  - `laws`, `lookup`, `conversation`: what holds of the server as a whole, of a search for a path
    and of a conversation with a client.
- `app/` is the program: sockets, files, the settings file and the window.
- `tests/` runs the library on concrete values.

A command never blocks inside the library. It is answered at once, or it returns an action for
the program to perform, whose outcome is handed back for the next step. The file system is asked
in the same way: a search says which path to look at next, and ends in a path within the root
directory or in a refusal.

A path lies in the root directory if it begins with its names and none of its names leads up to a
parent directory; letter case does not matter on Windows. No search ends anywhere else.

Paths are text. A session knows whether the server runs on Windows, and paths are joined as on that
platform. Their parents and their last names come from the standard library, whose answers depend
on the machine: a search goes on with them only after it has checked that they divide the path as
the platform of the session does. A few paths are left open, mostly of Windows: shares, devices, a
drive without a root, the verbatim prefix, and paths whose first name is a single dot.
