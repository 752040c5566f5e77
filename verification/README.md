# GPU Guard

A GPU-utilization monitor with a Telegram bot and an interactive shell for
running shell commands as managed background tasks.

- `src/` is the verified library (Verus):
  - `text` — Unicode whitespace, trimming and words, unsigned-integer parsing
    with the standard library's rules, decimal rendering, UTF-8 byte lengths,
    HTML escaping and padding.
  - `bot` — parsing a message into a bot command, and every reply the bot sends.
  - `cli` — parsing a shell line, command completion, the prompt, and every
    line the shell prints.
  - `task_manager` — task ids, the limit on running tasks, statuses, and the
    bounded log of each task's output.
  - `config`, `telegram`, `monitor`, `gpu` — configuration checks, Bot API
    responses and routing of updates, the underutilization alert, and reading
    `nvidia-smi` output.
- `app/` is the program around it: configuration loading, processes, HTTP,
  the terminal, timers, and the floating-point readings of the GPUs.
- `tests/` exercises the library on concrete values.
