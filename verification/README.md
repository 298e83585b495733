# rts

A task queue for long-running shell commands (such as training jobs): a
server keeps the queue, starts commands as slots and GPUs allow, and a command
line queues, lists, inspects, follows, kills and removes tasks.

The library under `src/` holds the logic, verified with Verus:

- `task`, `table`: the task model and the table of tasks ordered by id.
- `state`: the server's state and the handling of requests (queue, remove,
  describe, kill, list, configure).
- `worker`: the scheduler's decisions: which pending tasks start, what a
  finished process changes, when to look again for GPU tasks.
- `gpu`: what NVML reports and which GPUs can take a task.
- `logs`: log files as lines, and following a growing log.
- `cli`, `render`: what the command line decides and prints.
- `errors`, `scheme`, `text`, `clock`, `signal`: errors, request shapes,
  numerals, the wall clock and signals.
- `laws`: properties that hold across the operations.

`app/` is the program around it: the HTTP server, the worker loop that starts
processes, the HTTP client and the argument parser.
