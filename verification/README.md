# breadcrumbs

A profile-aware Wi-Fi state machine with Tailscale handling, as a verified
library with a program around it.

The library (`src/`) decides; the program (`app/`) reads files, runs other
programs and talks D-Bus. What the two exchange are plain values, so that every
decision has a contract that Verus checks:

- `flow`: the connect state machine. Which networks a profile may end up on, in
  which order they are dialed, when Tailscale has to be up first, and when a
  local password is dropped.
- `watch`: how an observation is classified, what is announced, when recovery is
  tried, and what a time-of-day schedule may switch.
- `daemon`: the rounds of the watch daemon, one question to the outside world
  after the other.
- `tailscale`, `login`: reading a status, the search for an exit node that works,
  and the interactive login.
- `nm`: the answers and settings of NetworkManager, and the steps of a connect.
- `cli`, `scan`: what the commands change and print, and the steps of the
  interactive scan.
- `config`, `profiles`, `state`: what is saved, and how it is loaded again.
- `status`, `notify`, `bread_events`, `backend`, `util`: connectivity,
  notifications and the log, bus events, and the seams to the outside.
- `text`, `json`, `dict`, `calendar`: what the others are written with.

A state machine such as `flow::Flow` is asked for its next step and handed what
came of it; its contract is a step function over a mathematical model, and the
promises of the library as a whole are proof functions over that model, next to
the code they speak of.

Three traits stand for the outside world: `util::Runner` runs programs,
`tailscale::Login` starts an interactive login, and `backend::Backend` does the
rest. Nothing is promised of what they answer.
