# bunnyhopfix

Autobhop prediction for Counter-Strike: Source, and the input, view, map and
console features around it, on Linux and on Windows.

The library in `src/` holds every decision and is verified with Verus: what is
found in the game's modules, what may be written and when, in which order hooks
go in and come out, what is fetched and installed, and what the user is told.
The program in `app/` reads, writes, waits and calls the system. It asks the
library what to do next, does it, and hands back what came of it.

## The library

| Modules | What they are about |
| --- | --- |
| `bytes`, `text`, `phrase`, `wide`, `code` | bytes, texts, UTF-16 and instructions |
| `sig`, `scan`, `elf`, `pe`, `live`, `vtable` | finding code by what it does, in files and in loaded modules |
| `procfs`, `target`, `convar` | the game's process, and the raw-input variable |
| `predict`, `transaction`, `patcher` | the prediction patch: both branches or none |
| `threads`, `hook`, `slot`, `hookset`, `toggle` | patches and hooks that can be taken out again |
| `rawinput`, `rawplan` | mouse input that lines up with the ticks |
| `viewpunch`, `punchpatch`, `fullscreen` | the view kick, and fullscreen on losing focus |
| `serverinfo`, `winserver`, `mapname`, `join` | what the server says of its map |
| `checksums`, `refresh`, `mapfetch` | the version of a map that the server runs |
| `pakfix`, `casewatch` | packed files that the Linux game would not find |
| `engine`, `winengine`, `console`, `sourcejump` | the game's console, demos, downloads, and records |
| `control`, `session`, `injection`, `worker`, `init` | the library in the game, from loading to unloading |
| `controller`, `launch`, `startup`, `watch` | the program that the user starts |

Work that alternates with the system is a state machine: a phase, the action
that it asks for, and `step`, which takes the reply. The machine's `next` is an
open spec function, so what holds of every run can be stated and proved. Such
laws are public proof functions beside the machine, with their statement in
words above them.

## What is trusted

`bzip2` unpacks maps and `sha1` hashes them; their results are named, not
described. From the standard library, `String::push`, `String::from_utf8` and
`char::from_u32` have contracts of their own. Everything else is proved.

Writes to the game's memory, files and the network are the program's part. The
laws about them speak of a program that does what it is asked and reports what
came of it.

## The program

`app/linux.rs` starts the game, or attaches to it. `app/hook.rs` and the files
below it become the library that the game preloads. `app/windows.rs` is the
Windows controller, and the files below it are also the library that it loads
into the game. The times that the game gives in floating point, and the numbers
of records, are converted there.
