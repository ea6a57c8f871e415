# froglang_core

The compiler core of froglang, a small expression language with structs, unions,
lists and value semantics: from source text to code for Cranelift. The library is
written in Verus; every function under `src/` carries a contract that is proved.

## From text to code

| Modules | What they do |
| --- | --- |
| `lexer`, `tokens`, `number` | source text to tokens |
| `parser`, `grammar`, `expression`, `type_expr` | tokens to syntax trees |
| `inspect`, `display`, `diagnostics`, `notation` | trees, values and errors as text |
| `modules`, `rename` | the files of a program put together under names of their own |
| `types`, `typed_ast`, `numbering` | typed trees whose nodes have identities |
| `liveness`, `flow`, `linear`, `dump` | last reads of names, and values that must not be duplicated |
| `layout`, `pack`, `fields` | how values are laid out in words, unions included |
| `ir`, `emit`, `show`, `lower`, `arity`, `codegen` | typed trees to operations |
| `native` | operations put into a Cranelift function |
| `host` | values exchanged with the embedding program |
| `cli`, `text` | the command line and prompt; strings |

Laws that relate several functions are public proof functions in the module that
they are about: that quoted strings read back (`notation`), that a packed union
member comes back (`pack`), that a field's leaves stand together (`fields`), that a
read called the last of its name is the last on every run (`flow`), that linear
values move at most once (`linear`), that an expression is lowered to as many words
as its type has leaves (`arity`).

`app/` is the `frog` program: files, the prompt, and the JIT. `tests/` runs the
library, with Cranelift's own verifier over the functions that it makes.
