# touchpad-toggle-daemon

A daemon that disables the laptop touchpad while an external mouse is connected
and active, and enables it again once the last active mouse is gone.

`src/` is a library, verified with Verus, that decides everything the daemon
does: which input devices are external mice, where to look for the battery of a
wireless mouse and what its status means, how many mice there are, and when the
touchpad has to be toggled. `app/` is the program around it: it listens to udev,
reads sysfs and runs `xinput`.

| module     | holds                                                              |
|------------|--------------------------------------------------------------------|
| `counter`  | `MouseCounter`, which reports when its count leaves or reaches zero |
| `device`   | which input devices count as external mice                         |
| `syspath`  | paths in sysfs as sequences of components                          |
| `battery`  | battery statuses, and the device above a power supply              |
| `search`   | the search for a mouse's battery, step by step                     |
| `mice`     | what is known of the mice, and how it changes                      |
| `record`   | the nodes of the mice as they are stored                           |
| `daemon`   | the reaction to each event and the commands to the touchpad        |
| `xinput`   | finding the touchpad in a listing, and the command to toggle it    |
| `text`     | splitting, trimming and searching text                             |
| `word`     | words in a text and in the bytes that encode it                    |
| `laws`     | what holds of the daemon as a whole                                |

The central law is in `laws`: whatever was found at the start and whatever has
happened since, the touchpad is enabled exactly while no mouse is active.

## Logging

Logs go to stderr. `RUST_LOG` controls verbosity:

| level            | what is logged                                                      |
|------------------|---------------------------------------------------------------------|
| `info` (default) | the startup summary, each mouse that is plugged in, unplugged or switched on or off, and each command to the touchpad |
| `debug`          | the udev properties of each device, the battery status files and their contents, the HID device of a power supply |
| `trace`          | each device that is examined at startup, each directory that is searched for power supplies, each udev event that is not handled |
