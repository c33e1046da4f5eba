# embarch-topology

Where the parts of an EmbArch test bench are, relative to each other.

- **Software topology**: where Core runs — on this machine (`local`), on the Windows
  host of this WSL2 guest (`wsl-host`), or on a machine that was named (`remote`).
- **Hardware topology**: which board holds which role, which serial port is
  dev-bench's link, where a signal goes, and whether a board is still the one that was
  enrolled.

## Layout

`src/` is the library, verified with Verus. It opens no probe, port, file or
connection: the caller does, and hands over what came back as plain values.

| module | what it decides |
| --- | --- |
| `software` | the places to look for Core, in order, and which one is it |
| `wsl2` | whether this process runs inside a WSL2 guest |
| `hardware::enrollment` | the table of enrolled boards, and every change to it |
| `hardware::signal` | the table of declared signals, and where a signal is now |
| `hardware::port` | which serial port is dev-bench's link |
| `hardware::hardware_id` | the factory ID of a chip, and what a board reports of itself |
| `hardware::validate` | the live identity check, and enrollment, step by step |
| `hardware::alert` | the alerts, and which of them are recent |
| `hardware::paths` | where the files are |
| `ui`, `cli` | the pages and the lines that a human reads |
| `text`, `lists` | strings and lists, for all of the above |

Contracts are stated over ghost models (`BoardModel`, `PortModel`, ...), which each
type has as its `deep_view`. What holds across several functions is a public proof
function whose name begins with `law_`.

Two facts about the standard library are taken on trust, both in `text`: what
`String::push` does, and that `{:?}` on a string depends on the string alone.

`app/` is the command line and the local web interface around the library: files,
serial ports, probes, the network, and the shapes that are serialised.

`tests/` run the compiled library.
