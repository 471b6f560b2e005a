[package]
name = "ppt2-sync"
version = "0.1.0"
edition = "2021"
publish = false

[dependencies]
named_pipe = "0.4"
once_cell = "1"
winapi = { version = "0.3", features = ["minwindef", "ntdef", "errhandlingapi", "handleapi", "libloaderapi", "memoryapi", "processthreadsapi", "psapi", "synchapi", "winbase", "winnt", "minwinbase", "tlhelp32", "excpt", "impl-default"] }
