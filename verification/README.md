# hulk_semantic

The semantic analyzer of the HULK language, verified with Verus: it takes a
parsed program (`ast`), checks it, and either hands back the typed tree
(`hir`) with the instances of generic functions, types and methods it made,
or every error it found.

Layout of `src/`:

- `span`, `ast`, `hir`, `symbols`, `error`: the data the analysis reads and
  writes, and the exact text of every error message; `hir_copy` copies
  typed declarations (the instances handed over stay in the context).
- `types`: the type table, with subtyping (nominal for classes, structural
  against protocols) and the common ancestor used to type conditionals.
- `context`: scopes, declarations and the records of generic instances.
- `builtin`, `analyzer`: the builtin functions and the entry point
  `SemanticAnalyzer::analyze_program`.
- `decl`, `type_decl`, `members`: the declaration passes (collection,
  signatures, inheritance and protocol cycles, constructors) and the analysis
  of functions and types.
- `expr`, `call`, `new`, `postfix`: the typing rules of expressions.
- `laws`: properties of the library stated and proved as proof functions.

`app/` holds serializable copies of the typed tree.
