# lambda

An interpreter for an untyped lambda calculus with integers and addition, written in
Verus and verified.

Terms are read by `ExprParser` (`\x. body`, application by juxtaposition, `+`,
parentheses, decimal numbers) and evaluated in three ways:

* `ExprNode::eval`: call by name, by capture-avoiding substitution; every abstraction
  that substitution passes gets a fresh parameter `name#k` from a counter
  (`eval` starts a counter at 0; `eval_with` takes one that the caller keeps, as the
  read-eval-print loop does for a whole session);
* `ExprNode::eval_env`: call by value, with environments and closures;
* `ExprNode::to_debruijn` then `ExprDbNode::eval`: call by name on De Bruijn indices.

Layout of `src/`:

* `syntax.rs`: named terms and their model `Term`;
* `env.rs`: environments (`push`, `find`, `find_idx`) and their laws;
* `names.rs`: decimal notation and `fresh_name`;
* `subst.rs`: substitution and evaluation by substitution;
* `closures.rs`: values, closures and evaluation with environments;
* `debruijn.rs`: De Bruijn terms, `shift`, substitution and evaluation;
* `lexer.rs`, `parser.rs`: tokens and the recursive-descent parser;
* `laws.rs`: properties of the evaluators (values, fuel, evaluation through the parts
  of a term, scoping, closed terms never reaching an unbound index, shifting and
  substitution, free variables);
* `agreement.rs`: substitution avoids capture, renaming a bound variable changes the
  De Bruijn form only in display names, and evaluation by substitution agrees with
  evaluation on De Bruijn indices, up to the display names of bound variables;
* `cbv.rs`: whenever evaluation with environments gives a value, evaluation on De
  Bruijn indices gives a value that stands for it, or reports an index beyond
  `usize`; and for a term whose names have no `#`, evaluation by substitution gives
  the same result up to the display names of bound variables, unless its name
  counter would wrap around.

Every evaluator takes a fuel bound (`eval_with`); the plain entry points use
`EVAL_FUEL`. Sums that leave the range of `i32` are reported as errors.

`app/main.rs` is a read-eval-print loop over standard input.
