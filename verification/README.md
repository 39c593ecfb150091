# lake_frontend

The front end of the Lake language: it turns the source files of a program
into a lowered, monomorphic syntax tree, and says what is wrong with a program
that it refuses. Every public function of the library has a contract,
and Verus proves it. What is taken on trust are a few character tests and string
operations of std and of `chumsky::text`; each says so in its doc comment.

| Module | What it holds |
| --- | --- |
| `span`, `text`, `name_map` | places in a source, texts, tables keyed by names |
| `api` | tokens, expressions, items, and their models |
| `lexer` | source text to tokens |
| `parser` | tokens to items and expressions |
| `loader` | the modules of a program, in the order of their imports |
| `cfg_filter` | the items that belong to a target |
| `panic_loc` | the file and line of each `panic` and `assert` |
| `registry`, `populate`, `repopulate` | what each module declares, and what a name means in it |
| `mono` | copies of generic items for the types they are used with |
| `rewrite`, `inspect` | passes and questions over all of an expression |
| `lowering` | `ret`, pure calls, tuples, constants and paths lowered away |
| `error_handle` | diagnostics and the reports made of them |
| `prelude` | the stages in a row |

Types that hold source text have a model (`deep_view`); expressions are
modelled as uniform trees, `api::expr::Tree`. A function's `ensures` says which
specification function of those models its result is. Laws that relate several
functions are the public proof functions.

`app/` reads files, prints reports and runs the stages as a program.
