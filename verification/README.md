# board-api

`board-api` turns GitHub issues into a small kanban and runs coding-agent jobs against them. The
phone that shows the board holds a revocable `board_` token and no other credential; GitHub stays the
only place where cards live.

The logic is a Verus library: Verus proves the contracts of its functions. The contracts of the calls
into other crates, in `outside`, and that of `String::push`, in `text`, are relied on. The program
around the library does what a prover cannot follow: HTTP, processes and files.

## The library (`src/`)

| Module | What it holds |
| --- | --- |
| `auth`, `hostdoc` | keys, the one-time pairing code, and the notes that show it |
| `config`, `model`, `error` | configuration and its rules, the shapes of requests and answers |
| `github`, `tasks` | what the GitHub command line is asked, and what its answers mean |
| `cards`, `board`, `search` | issues as cards, the shared snapshot of the board, the search behind it |
| `automation` | which ready cards are picked up without a request |
| `harness`, `preflight` | the agents of a job, and what is made sure of before it is created |
| `manager`, `execution`, `jobs` | jobs: their records, their claims, and their work step by step |
| `cleanup` | which worktrees are removed, and when |
| `server` | the answers beside the board and its jobs |
| `text`, `textmap`, `order`, `path`, `util` | texts, maps, sorting, paths, times and log lines |
| `outside` | calls into other crates, with the contracts that are relied on without proof |

Work that alternates between decisions and the outside world is a state machine: the library says
what is to be done next, the program does it and hands back what came of it. `execution`, `tasks`,
`preflight`, `search`, `automation::Scan` and `cleanup::Sweep` are of that kind.

What holds across functions is stated in the modules as public proof functions, under "Laws".

## The program (`app/`)

`routes` serves HTTP, `gh` runs the GitHub command line, `runner` runs jobs, the automatic pickup and
the nightly cleanup, `store` reads and writes files, and `wire` gives values their JSON form.

## Tests (`tests/`)

The tests run the compiled library, with the other crates behind `outside`, on concrete values.
