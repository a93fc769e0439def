# keylightd

Turns Elgato Key Lights on while a camera produces frames, and puts every light
back exactly as it was when capture stops.

The library under `src/` holds the rules, parsers and state machines of the
program, verified with Verus. It performs no input or output: it is handed what
was read as plain values and gives back what to do.

| Module | What it decides |
| --- | --- |
| `attempt` | how a light is taken, used and given back; the ownership journal |
| `session` | when a camera session begins and ends; which lights to try when |
| `daemon` | the controller that joins both; events, manual commands, startup |
| `lock` | waiting for the machine-wide lock |
| `retry` | capped exponential backoff |
| `change`, `preset` | manual changes; saving and applying the preset |
| `control` | the objects of the desktop control surface and their paths |
| `light` | states, identity, discovery and resolution of lights |
| `camera` | which cameras there are, and frames read from trace lines |
| `domain` | camera activity, colour temperature, session targets |
| `ambient`, `calibration`, `lux` | the sensor, the calibration curve, light levels |
| `config`, `selection` | the configuration and its rules; choosing devices |
| `text`, `text_map`, `time` | texts, ordered maps, the boot clock |

Laws that span several functions stand beside them as public proof functions.
In `attempt`: the journal is saved before a light is set, no manual change
alters the record of how a light was, and a session leaves no trace. In
`session`: brightness is sampled once, activity cancels restoration, and
restoration goes on until nothing is held.

Light levels are doubles, which the library takes by their bit pattern. The
interpolated brightness between two calibration points is computed by the
program.

The program under `app/` reads files and devices, talks HTTP, mDNS and D-Bus,
and carries out what the library decides.
