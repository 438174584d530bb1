# qwen3-moe

Host-side logic of a Qwen3.x mixture-of-experts runtime that spreads one model
over several devices, by pipeline stages, by tensor-parallel ranks, or by both.

- `src/` is the library. It decides; it touches no device and no file. Given a
  configuration, the directory of a weight file and the placed buffers, it says
  which bytes each rank gets and in which form, what is allocated, which kernels
  run in which order on which buffers, and what a speculative step does next.
  Each function has a contract, and Verus proves it. The functions named `law_*`
  state what holds across functions: the shares of a tensor fit together again,
  every token goes through every layer once, a restore undoes the steps since
  the save, a redo of the recurrent layers leaves what a whole step would leave.
- `tests/` runs the library on concrete values.
- `app/` is ordinary Rust around the library: it reads weight files, converts
  numbers, runs the listed operations on a cluster, and draws random numbers.

Modules, from the bottom up:

| module | what it holds |
| --- | --- |
| `arith`, `text`, `paths`, `tensor`, `device`, `plan` | integers, names, file names, shapes, device pointers, lists of operations |
| `config`, `names`, `assignment` | the model's configuration, tensor names, which rank owns which layer |
| `tp_slice`, `weight_layout`, `tp_layout`, `tp_slice_laws` | how a weight is shared by tensor-parallel ranks |
| `layout`, `weights`, `convert`, `upload`, `load`, `load_error`, `sharded` | from a weight file to placed tensors |
| `tp_load`, `tp_sharded`, `tp_plan`, `hybrid`, `mtp` | the same for ranks, stages of ranks and the draft head |
| `session`, `tp_session`, `state_ops`, `state_laws` | caches and what starts, saves, restores and rolls them back |
| `model`, `model_arch` | a loaded model |
| `forward`, `mtp_forward` | one token, a prompt, a batch, a speculative step |

Numbers that the library passes through are `u32`: the bits of a single.
