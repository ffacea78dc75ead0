# Thumos

The logic of a small phone kernel, verified with Verus.

The library under `src/` holds what the kernel decides and computes; it performs no I/O.
Where a part of the kernel alternates between a decision and the hardware, the library gives
the next action and takes what came of it.

| Modules | What they hold |
| --- | --- |
| `kinit`, `kinit_laws`, `kinit_plan` | the boot sequence, the passphrase gate, what holds of every boot |
| `kardia` | the state after the boot, the service loop, supervision of services |
| `key_manager`, `security`, `sha256` | keys and their derivation |
| `ipc`, `futex`, `irq`, `memguard` | messages, futexes, interrupt masking, user buffers |
| `gic`, `keypad`, `board`, `kconfig`, `heap_stub` | register plans, the key matrix, constants, parameters |
| `block`, `gpt` | block devices and partition tables |
| `firewall` | the packet filter and its DNS blocklist |
| `http_client`, `http_laws`, `json_mini`, `json_laws` | HTTP/1.1 and JSON, read and written |
| `harmostes`, `harmostes_laws`, `matrix_crypto`, `matrix_ids` | the Matrix client |
| `gps`, `nmea` | the position receiver |
| `fm_radio` | the FM tuner |
| `gsm7`, `sms` | the alphabet of short messages |
| `heorte`, `heorte_alarm`, `heorte_timer`, `civil` | calendar, alarms, timer, stopwatch |
| `text`, `security_mode` | shared helpers |

Contracts are stated over mathematical models: each type has a view or a model, and each
function says what it does to it. The functions named `law_...` state what holds of several
functions together.

`app/` boots the kernel on a host without the phone's devices and runs its service loop for a
bounded number of ticks. `tests/` holds the tests.
