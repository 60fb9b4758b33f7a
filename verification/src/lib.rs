//! Locating, patching and hooking decisions for a Counter-Strike: Source
//! bunnyhop client tool, with every decision proved against its contract.
pub mod bytes;
pub mod casewatch;
pub mod checksums;
pub mod code;
pub mod console;
pub mod control;
pub mod controller;
pub mod convar;
pub mod elf;
pub mod engine;
pub mod fullscreen;
pub mod hook;
pub mod hookset;
pub mod init;
pub mod injection;
pub mod join;
pub mod launch;
pub mod live;
pub mod mapfetch;
pub mod mapname;
pub mod pakfix;
pub mod patcher;
pub mod pe;
pub mod phrase;
pub mod predict;
pub mod procfs;
pub mod punchpatch;
pub mod rawinput;
pub mod rawplan;
pub mod refresh;
pub mod scan;
pub mod serverinfo;
pub mod session;
pub mod sig;
pub mod slot;
pub mod sourcejump;
pub mod startup;
pub mod target;
pub mod text;
pub mod threads;
pub mod toggle;
pub mod transaction;
pub mod viewpunch;
pub mod vtable;
pub mod watch;
pub mod wide;
pub mod winengine;
pub mod winserver;
pub mod worker;
