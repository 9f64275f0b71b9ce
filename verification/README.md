# kittest inspector

An inspector for `egui_kittest` harnesses and live `eframe` apps, and the widget-tree queries by
which an agent finds its way around such an app.

`src/` is the library. Everything in it is verified with Verus:

- `id`, `text`: widget ids and the text functions that the rest is stated with.
- `node`, `query`, `walk`, `widget`, `limit`, `resolve`, `roles`: from an accessibility tree and a
  filter to the widgets that match, nested by ancestry and cut to a limit; and from a locator to
  the one node that it names. `matching`, `budget` and `handout` state what holds of the answers.
- `inspector`, `controls`, `details`, `outline`, `pointer`, `source`, `screenshot`, `animation`:
  the state of the inspector, what messages and clicks do to it, and what it shows. `session`
  states what holds over any number of them.

What is trusted rather than proved is marked `external_body`, `assume_specification` or `uninterp`:
the role names of `accesskit`, the decoding of screenshots by `image`, and two functions of the
standard library.

`app/` is the program around the library: the window, the transport, the clipboard, the JSON shapes
and whatever is computed in floating point. `tests/` runs the library, on hand-built trees and on a
real egui frame.
