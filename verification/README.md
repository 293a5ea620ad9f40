# fp_typing

The typing core of the FerroPhase compiler, written in Verus: every
function here carries a contract that Verus proves.

## Layout

- `ty` — checked HIR types (`Ty`, `TyKind`, generic arguments, function
  signatures), their mathematical model (`TyModel`), deep copies and
  structural equality.
- `type_shapes` — structural queries (`ty_contains_param`,
  `ty_contains_error`, method-lookup shape keys) and the primitive types that
  names and AST primitives stand for.
- `type_compat` — annotations with `_` holes against resolved types, and the
  coarse shape test that gates impl candidates.
- `generic_types` — substitutions, call-type unification (committed and
  speculative), substitution through types and signatures, call
  instantiation, branch joins, receiver adjustment and scrutinee checks,
  with the diagnostics they record.
- `call_types` — generic arguments of calls and methods, `for`-loop element
  types, the type arguments of a call's result, collection constructors,
  method candidates and receivers, `Deref` targets, variant payloads.
- `type_exprs` — checking type expressions into checked types, with the
  types and refinements recorded for their nodes.
- `expr_rules` — the typing rule of each expression form: operators,
  borrows, indexing and slicing, `if`/`match`, array literals, calls and
  their arguments, struct literals, closures, local bindings, `let`, `try`,
  assignments and loops.
- `method_lookup` — method resolution over the program's impls: candidate
  impls, inherent and trait-default methods, the auto-deref chain through
  `Deref` impls, declared signatures with `Self` fixed, the declared types
  of associated consts, associated types.
- `traits` — associated types declared through chains of supertraits, and
  projections on bound generic parameters.
- `patterns` — binding patterns (tuples, structs, variants, literals) against
  a value's type, field types and variant payloads.
- `paths` — the generic arguments a type path takes, the values variant
  paths denote, and the built-in `void` and `null` type paths.
- `path_types` — the type a path denotes in type position and in value
  position, against tables of what is in scope: generic parameters, type
  aliases (their parameters replaced by the path's arguments), items and
  impl members, locals, `Self` and its associated types.
- `intrinsics` — result types of intrinsic calls and portable operations.
- `literals` — literal types and array-length constants.
- `runtime_types` — the interpreter's type bindings, how a type path is
  resolved against scopes, globals and imports, the types of interpreter
  values, and types written as names or `const` blocks resolved through
  user hooks.
- `support` — the default extern prelude and impl self-type names.
- `refinement` — refinement-type checking: exact evaluation (`decide`),
  linear normalisation and Fourier–Motzkin satisfiability over the rationals
  (`omega`, with its model in `linear`, `meaning` and `bounds`), and
  `discharge`, which settles a refinement predicate at compile time.

## What is proved

Besides each function's contract, the library states and proves laws such
as: a refinement is reported proven only when it holds at every rational
assignment satisfying the hypotheses, and refuted only when some such
assignment violates it, and it is left undecided only where the linear
fragment does not apply or its arithmetic leaves `i128` (a division is in
the fragment only between constants, and only where it is exact, so that
its rational and its integer value agree); the satisfiability test answers exactly over the
rationals whenever its arithmetic stays within `i128`; recorded unification
never fails, speculative unification records nothing, and neither ever
changes a binding already made; substitution reaches into the bindings it
substitutes and ends on cyclic ones, and leaves parameter-free types alone; shape compatibility is symmetric and reflexive; borrowing never
stacks references; a `match` whose arms agree has their type; a call of a
function whose output is not generic has that output; a local binding whose
initializer has exactly its annotated type binds that type; a still-generic
impl is a method candidate for every receiver of its type; and the supertrait
search finds an associated type exactly when some chain of supertraits
declares it, cycles included.
