# bevy_mod_scripting_js

JavaScript scripting for Bevy apps on the [Boa](https://boajs.dev) engine, verified with Verus.

Each script runs in a virtual machine of its own. The bindings convert the values that pass between
scripts and the app, give scripts the classes by which they use host values (`ReflectReference`) and
types (`StaticReflectReference`), keep the functions that scripts hand out, and load, reload and call
the scripts.

## Layout

- `src/` is the library. Whatever reads or changes a virtual machine, and whatever is asked of the
  app, goes through a `Session`, which journals it and knows the state in which its last step left
  the virtual machine, so that nothing can happen between two steps. The contracts say which steps a
  function takes, in which order, and what it makes of the replies; where the steps run no code of a
  script, they also say what becomes of the virtual machine. While the app is asked to call something
  of its own, it can call functions of the script in turn: of the state after such a question only what
  holds whatever scripts do is known.
  - `value`, `number`, `text`: the values on the side of the app.
  - `engine`, `session`, `host`: the engine and the app as the bindings see them. The functions of
    the engine that contracts rely on are all in `engine` and `session`.
  - `data`, `cycles`, `from_js`, `into_js`, `script_value`: conversions, and what they keep and refuse.
  - `function_registry`: the functions that scripts hand out.
  - `calls`, `components`, `reference`, `native`: the functions that scripts call.
  - `setup`, `classes`, `registration`: the classes of a virtual machine, and what installing them
    changes.
  - `globals`, `mirror`: the globals that a virtual machine has of the app, and what binding them
    changes.
  - `vm`, `vm_registry`: loading, reloading and calling scripts.
- `app/` is the Bevy plugin around the library: it answers the questions of the library with
  `bevy_mod_scripting_core` and keeps what the handles in script values stand for.
- `tests/` runs the library with the engine.

Doubles are kept as the bits of their IEEE 754 representation, and values, functions and errors of the
app as handles.
