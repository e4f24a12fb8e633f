# rsass (verified core)

The core of a Sass compiler, written in Verus with its contracts proved:

- `selectors` — selector parts, nesting a selector in its parent (`join`),
  writing a selector as CSS text, and (`selectors::parse`) reading a
  selector from bytes with a grammar stated as spec functions.
- `value` — rational numbers, units, quotes, operators and colors.
- `css` — evaluated values, and comparing them.
- `render` — writing evaluated values as CSS text (`css_text`); `quote` of
  a value that is not a string gives that text.
- `sass` — values as written (`sass::value`), their evaluation in a scope,
  declared arguments (`sass::formal_args`) bound to the arguments of a
  call, and user functions (`sass::Function`).
- `variablescope` — scopes of variables and functions.
- `functions` — the built-in string functions and calling them.
- `spectest` — the logic of the converter that turns sass-spec test cases
  into Rust tests; `app/main.rs` is that converter's file-system side.
- `text`, `error` — helpers and errors.

A call evaluates to the user function of its name where a scope defines
one, else to the built-in function of that name, else it stays a call. A
user function is a list of declared arguments and the one value that it
returns. A scope counts how many calls of user functions may still nest;
a call where none may is the error `CallDepth`, so that evaluation always
ends. `ScopeImpl::new` allows as many as a `usize` counts, which the stack
never reaches; `ScopeImpl::with_call_depth` sets the count.

Of the binary operators, `and`, `or`, `==` and `!=` are evaluated; the
other operations are kept as they are written. An evaluated map has one
entry per key: a key given again keeps its place and takes the last value.

The tests are under `tests/`.
