# Smartpool

Smartpool is a future-aware threadpool that grants great control over the behavior of the pool:
priority levels, channels with their own order, schedulers that choose between levels, and a say in
what is completed when the pool closes.

## Layout

- `src/` is the library, verified with Verus: what the pool decides, and the changes that its threads
  make to the values they share.
  - `status` and `bits`: the present field, in which each channel keeps a bit raised while it has tasks
  - `channel`: FIFO, shortest deadline first, round-robin multi channels, and the status bit of a
    spatial channel
  - `pool`: configuration, layout of the levels over the present field, what a worker does next while
    the pool runs and while it closes, and who takes care of a task that yields
  - `scheduler`, `scoped`, `push`, `run`: scheduled events, scoped batches, push futures, plain work
  - `moment`: the steady clock, and durations
  - `shared`: the atomic values that threads share, with a record of each change and each reading, and
    handles that remember what was changed through them
- `app/` is the threadpool around it: threads, locks and futures.
- `tests/` holds the tests of the library. Those of whole pools let the workers take turns on one
  thread.

## What is proved

Each function states what it does. What holds over several calls stands in public proof functions whose
names begin with `law_`: among others that tasks leave a channel in the order it promises, that the
present field shows which channels have tasks, that no bit belongs to two channels, that a task which
yields is taken care of exactly once however often it is woken, that the close counter shows how many
tasks block closing, that each scheduled event executes once, and that a worker is done closing only
when nothing that is critical for closing is left.

What other threads do to a shared value cannot be foreseen. A change or a reading of such a value leaves
a record that nothing else can make, so that a contract can say what was changed or read, and what was
done with what it found. Changes go through handles that remember them: each worker has its own handles to
the tickets of the levels and to the close counter, the worker of a task and each callback that wakes it
have their own handles to the status of the task, and the owner of a pool alone has the handle that closes
it. So a contract can also say in which order changes were made, and that no others were. What is promised
of the status of a task is proved over the records of all its changes.

## Dependencies

`smallqueue` and `manhattan-tree` both need a version of `through` that the registry does not offer.
Tasks of the same deadline therefore stand in a `VecDeque`, and the spatial channel of `app/` is not part
of the build.
