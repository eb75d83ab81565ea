# zed-sandbox

Runs a project directory inside a disposable, network-restricted VM and opens
Zed on the host connected to it over SSH. The VM is a container of Apple's
`container` runtime; its name, its image, its mounts and its ssh settings follow
from the project's path and the user's account.

The launcher's rules are a Verus library: what each function returns is stated in
its contract and proved, but for what is taken on trust of outside code (below). The program in `app/` does what the library decides on:
it reads the environment and files, runs commands, connects and sleeps.

## Layout

| Module | What it holds |
| --- | --- |
| `text`, `number` | strings and numbers as sequences of characters |
| `names` | the names that the tool goes by, and message templates |
| `json` | JSON documents, read by `serde_json`, as plain values |
| `path`, `user`, `sandbox` | from a directory and an account to a project |
| `args` | the command line |
| `process` | commands, and what is made of how they ended |
| `services`, `network` | the runtime's services, and the domain of its containers |
| `container` | a container's life: reuse, create, stop, delete |
| `image` | the image, and the keys that open it |
| `seed` | what the agent inside the VM starts with |
| `readiness` | waiting for the ssh server |
| `ssh_config` | the ssh configuration that pins the VM's address |
| `launch` | the order of it all, and the hand-over |

Public proof functions whose names start with `law_` state what holds of several
functions together, such as that rewriting the ssh configuration settles and
preserves other projects' blocks.

The program looks for the image's `Dockerfile` and `entrypoint.sh` beside itself.

## What the proofs rest on

What outside code does is stated in ten trusted items, which nothing here proves:

| Item | Outside code |
| --- | --- |
| `text`: the specification of `String::push` | `String::push` |
| `user::to_lowercase`, and the name `lowered` for its result | `str::to_lowercase` |
| `sandbox::md5_digest`, and the name `md5_of` for its result | `md5::compute` |
| `json::read_value`, and the name `json_text` for its result | `serde_json::from_str` |
| `json::layer_of`, the declared type `ExValue`, and the name `value_view` | `serde_json::Value` |

They also rest on Verus and on its specifications of the standard library.

## Environment

| Variable | Effect |
| --- | --- |
| `CLAUDE_SANDBOX_IDLE` | idle timeout in seconds, applied when the VM is created (`0`: never) |
| `CLAUDE_SANDBOX_DEBUG` | keep failed VMs around |
| `CLAUDE_SANDBOX_USER` | account name inside the VM |
| `CLAUDE_SANDBOX_STATE` | directory of the tool's state |
| `CLAUDE_SANDBOX_RESEED` | overwrite the VM's credentials from the host's keychain |
