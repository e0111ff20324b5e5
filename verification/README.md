# adb-input

Shares a Linux desktop's keyboard and mouse with an Android device over ADB.

`src/` is the library: its rules, formats and state machines, stated in contracts and
proved with Verus. `app/` is the program around it: terminals, input devices,
sockets, processes and files, and the two computations on floating-point numbers (the
pointer's multiplier, and how much a forecast is trusted). `tests/` runs the library.

| Modules | What they hold |
| --- | --- |
| `packet`, `bytes`, `link` | the stream from the desktop to the agent |
| `udp`, `peer` | the authenticated datagrams of the motion fast path |
| `hid`, `uhid`, `keys` | key usages, reports, and virtual devices |
| `pointer`, `bins`, `desktop` | the desktop's input devices, and what is sent of them |
| `clock`, `forecast`, `filter`, `sampler`, `agent` | what the agent does with motion and packets |
| `ip`, `devices`, `json`, `saved`, `store` | hosts, endpoints, and the file of saved devices |
| `adb`, `roster` | the answers of `adb`, and the devices that can be chosen |
| `terminal`, `editor`, `frame`, `menu` | keys, text, and screens |
| `forms`, `reconnect`, `manage`, `home` | the steps of the interactive program |
| `release` | building and packing a release |
| `text`, `num` | text and integers |

Proof functions named `law_...` state what holds across functions: that what is
written reads back, that a replayed datagram does nothing, that sampling conserves
movement, that switching releases every key.

Pressing and releasing Ctrl+; switches between the desktop and the device.
