# lingxi

A Wayland compositor with animated dynamic tiling. What the compositor decides is
a library verified with Verus; what only talks to the outside is a thin program
around it.

## The library: `src/`

- `layout/`: the dwindle and master-stack layouts, and the tree of splits that a
  workspace keeps. Tiles lie inside their area, in order and apart.
- `animation/`: the curves and clocks of animations.
- `compositor/`: the state of the desktop. Workspaces, floating windows, full
  screen, the lock screen, the room that bars take, and how each request changes
  it. An operation returns the list of effects that the program has to carry out.
- `input/`: which keys the compositor takes for itself, what they do, and where
  the pointer goes.
- `renderer/`: what a frame shows, from front to back, and the cursor's picture.
- `config.rs`, `bindings.rs`: the settings, their defaults, and how key bindings are
  written.
- `auth.rs`, `backend.rs`: the steps of verifying a password, and the choice of
  backend, mode and controller.

Windows and surfaces are numbers. Floating-point values are carried by their bits;
what is computed with them comes through the trait `numerics::Numerics`, about
which nothing is taken for granted: a contract speaks of whatever was answered.

Each module states its laws as public proof functions whose names begin with
`law_`. What is not proved but believed is the handful of declarations marked
`external_body` or `assume_specification`, in `text.rs` and `renderer/cursor.rs`.

## The program: `app/`

The event loop, the Wayland protocol handlers, the winit and DRM backends, shaders,
PAM, the configuration file and the processes that are started.

## Settings

`~/.config/lingxi/lingxi.toml`:

```toml
[general]
border_size = 2
gaps_inner = 5
gaps_outer = 10

[layout]
default_layout = "dwindle"
split_ratio = 0.5
```
