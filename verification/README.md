# cpubind

Binds the threads of apps to CPUs by rule, and keeps them there while processes go
to the background, loads change and thermal control takes CPUs offline.

`src/` is the library. It decides; it makes no system call. Where a decision needs
several answers from the kernel, it is a run: `action` says what to do next, `step`
takes the answer. Every function is verified with Verus against the contract above
it, and what holds of several functions together stands in the `law_` proofs.

| module      | what it holds                                                   |
|-------------|-----------------------------------------------------------------|
| `cpuset`    | sets of CPUs and their textual form                             |
| `topology`  | the machine's CPUs, core tiers, cpuset directories              |
| `bind`      | binding one thread, with the retry after a refusal              |
| `process`   | what the files of processes and threads say, load levels        |
| `config`    | the part of the configuration that bindings depend on           |
| `proccache` | the cache of packages and bound threads, periods of all threads |
| `sync`      | one period of one thread: targets, limits and their expiry      |
| `bpf`       | names the probes look for, events they report                   |
| `probe`     | tracepoint formats and the steps of loading the probes          |
| `inotify`   | noticing that the configuration file has changed                |
| `text`, `bytes`, `common` | texts, kernel byte layouts, shared numbers        |

`app/` performs the actions, with `libc` for the system calls and `aya` for the
probes. Finding the rule for a thread is left to its callers.
