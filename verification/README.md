# Squirrel

The verified core of an operating system whose components talk through semantic intents.

The library computes and decides; contracts say what its functions return and change, and
Verus proves them. The kernel binary around it drives the hardware, holds the locks and does
the floating-point work of running a model.

## Library (`src/`)

| Module | What it holds |
| --- | --- |
| `intent_bus` | Intents, their payloads, routing, inboxes and the audit log |
| `sart` | Agents and their scheduler |
| `glass_box` | The store of published state, its agent and its renderer |
| `system` | What the agents share |
| `kernel` | Boot, clock, memory managers, screen, keyboard, interrupt controllers, kernel agents |
| `network` | Cards and their queues, HTTP, exchanges over TLS, random bytes, the network agent |
| `inference` | Model files, tokens, generation, services and the router |
| `primary_agent` | The agent that talks with the user, and its tools |
| `modules` | The capability modules and the frames they read |
| `text`, `text_map`, `views` | Text, sorted maps keyed by text, models of lists |

Public proof functions whose names begin with `law_` state what holds of several functions
together.

Calls into other crates stand behind small trusted functions, each with a comment that says
what is claimed of the call: `postcard` in `intent_bus::payloads`, `x86_64` in
`kernel::memory::pmm`, `noto_sans_mono_bitmap` in `kernel::display`, `pc_keyboard` in
`kernel::drivers::keyboard`, and three functions of std in `text`.

Floating-point numbers appear in the library by their bits.

## Kernel binary (`app/`)

`main.rs` boots the machine and runs the main loop. `agents.rs` joins the library's agents
with the services they need. The other files are drivers: ports and interrupts, memory, the
screen, network cards, the TCP/IP stack, TLS, the file store, and the arithmetic of a model.

## Tests (`tests/`)

Tests on concrete values, run with the real outside crates.
