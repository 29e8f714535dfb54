# FeatherDock

A dock for Windows: a row of pinned and running programs at the lower edge of the screen,
with icons that grow under the pointer, previews of windows, a control center, an app drawer
and a search window.

The library in `src/` holds what the dock decides. It is written in Verus: every function
states in its contract what it returns or changes, and Verus proves it. Nothing in it talks to
the system. A step that needs the system takes what the system said as plain values and gives
back a list of effects to carry out.

| part | modules |
| --- | --- |
| text, numbers and sorting | `text`, `casing`, `words`, `numbers`, `order`, `quoting`, `paths`, `path_order`, `facts` |
| files | `config`, `categories`, `settings`, `desktop_scan`, `repair`, `pins`, `atomic`, `error_log` |
| the row | `dock`, `row_layout`, `apps`, `activation`, `icons`, `fitting`, `content`, `theme` |
| the window of the dock | `behavior`, `taskbar`, `desktop_icons`, `watchdog`, `autostart`, `windows_list` |
| the control center | `control_center`, `panel_layout`, `panel_text`, `sysctl`, `wifi` |
| the drawer | `drawer`, `drawer_view`, `drawer_layout`, `drawer_input` |
| other windows | `window_preview`, `command_palette`, `folder_stack`, `settings_window` |

What holds of several functions at once stands as public proof functions whose names begin
with `law_`, in the module that they are about or in its `_laws` companion: that a file reads
back as it was written, that no slot of the row is lost when it is rebuilt, that a taskbar is
always brought back.

Lengths are whole numbers. The row counts in parts of a pixel, the control center in sixths of
a logical pixel, the drawer in ninety-sixths of a pixel; each module says which.

`app/` is the program around the library: windows, messages, drawing, the registry and files,
in ordinary Rust. It runs on Windows only. Easing, fading and drawing are floating point and
stand there.

`tests/` runs the library on concrete values.
