# aicg

A shell that forwards every command to the calling shell, unless the line is
prefixed with `@`, in which case a local language model is asked. The model can
read files, explore directories and run `grep`, all confined to the current
working directory.

- `src/` is the verified library: how a line is understood (`shell`), how the
  model is found (`llm`), the tools and the scratch directory (`tools`), the
  context bar (`gauge`, on the integer arithmetic of `rounding`), and what these
  rest on (`paths`, `order`, `text`). Whatever needs the file system, another
  process or the network is asked for as an action; the library goes on with the
  reply.
- `tests/` holds the tests of the library.
- `app/` is the program: it performs the actions and talks to the model.
