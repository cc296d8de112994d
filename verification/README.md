# ihs_wl_server

The verified core of an embedded Wayland server. The server runs inside a
shell's process and lets it host ordinary Wayland clients as platform views:
each client toplevel is shown inside a view, its buffers handed to the shell
as dma-buf layers. It never renders.

## Layout

| Path     | What                                                             |
|----------|------------------------------------------------------------------|
| `src/`   | The server's state, rules and arithmetic, proved with Verus      |
| `tests/` | Tests of the library on concrete values                          |
| `app/`   | The server around it: smithay, libc, gbm, the event loop, the log |

## How the library works

`state::State` holds the views, the toplevels, the activation tokens, the
buffer ids and the frame clock. Everything that happens (a request from the
shell, a client's commit, a frame reported on screen, a fence, a tick of the
clock) is a method on it. A method changes the state and adds what is to be
done to a list of `action::Action`; `app/` performs the actions and reports
what came of them.

Contracts are stated over `StateModel`, the state as maps and sequences: each
event is a step from a model to the next one and the actions it asks for.

What holds of the server as a whole is proved beside the steps:

- `ledger`: every presentation feedback and every fifo barrier is settled
  exactly once.
- `custody`: every hold on a buffer is given back exactly once, when the shell
  is done with it. Two go back before that is known: one whose release fence
  cannot be watched, and, past the bound on holds without a fence, the oldest of
  them.
- `feedback`: content is said to have been shown when it was, and only then.
- `order`: frames are numbered in the order they are submitted.
- `progress`: the frame clock runs while anything waits on it.
- `state`: a toplevel is shown by one view at most, and a view binds what it
  names.
- `launch`: in every state the server reaches, a toplevel activated with a token
  goes to the view that names the token.
- `staging`: a slot in use is never overwritten, and a slot catches up with
  what it missed.

Points, scales and hit tests are floating-point numbers and stay in `app/`.
