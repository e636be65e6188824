//! The operations a template evaluator asks of its surroundings.
use vstd::prelude::*;
use crate::condition::opt_view;
use crate::error::{Error, ErrorKind, SourceText, Span};

verus! {

/// The environment/context a template is evaluated in. Implement it to give templates
/// variables, included files and block markup. Each operation is described by a spec
/// function of the environment, so that the same question gets the same answer; an
/// implementation states its own (the defaults describe an environment that knows nothing:
/// no variable, no file, empty markup).
pub trait Environment {
    /// The value of the variable `name`, or `None` when it is not in scope.
    open spec fn var_spec(&self, name: Seq<char>) -> Option<Seq<char>> {
        None
    }

    /// The text that including `file` with argument text `args` contributes, or `None` when
    /// the include fails.
    open spec fn file_spec(&self, file: Seq<char>, args: Seq<char>) -> Option<Seq<char>> {
        None
    }

    /// The markup that opens the block `name`.
    open spec fn block_spec(&self, name: Seq<char>) -> Seq<char> {
        Seq::empty()
    }

    /// The markup that closes a block.
    open spec fn end_spec(&self) -> Seq<char> {
        Seq::empty()
    }

    /// The text a quoted literal `raw` interpolates to, or `None` when interpolating fails.
    open spec fn literal_spec(&self, raw: Seq<char>) -> Option<Seq<char>> {
        None
    }

    /// Resolves a variable by name; a missing variable is a `VariableNotFound` error.
    fn resolve_var(&self, var_name: &str, span: Span, named_src: &SourceText) -> (r: Result<String, Error>)
        ensures
            match self.var_spec(var_name@) {
                Some(v) => r matches Ok(x) && x@ == v,
                None => r matches Err(e) && e.0 matches ErrorKind::VariableNotFound { var_name: n, src, span: sp }
                    && n@ == var_name@ && src@ == named_src@ && sp == span,
            };

    /// Resolves and includes another file, passing it the raw argument text.
    fn resolve_file(&self, file: &str, args_str: &str, span: Span, named_src: &SourceText) -> (r: Result<String, Error>)
        ensures
            match self.file_spec(file@, args_str@) {
                Some(v) => r matches Ok(x) && x@ == v,
                None => r is Err,
            };

    /// The markup that opens a block.
    fn resolve_block(&self, block_name_or_classes: &str) -> (r: String)
        ensures
            r@ == self.block_spec(block_name_or_classes@);

    /// The markup that closes a block.
    fn resolve_end(&self) -> (r: String)
        ensures
            r@ == self.end_spec();

    /// Non-erroring counterpart to `resolve_var`, used by `.if` conditions, where a missing
    /// variable is falsy: `None` if `var_name` is not in scope.
    fn lookup_var(&self, var_name: &str) -> (r: Option<String>)
        ensures
            opt_view(r) == self.var_spec(var_name@);

    /// Interpolates any tags embedded in a quoted literal (an include argument's literal or an
    /// `.if` operand) by evaluating `raw` as a template.
    fn resolve_literal(&self, raw: &str) -> (r: Result<String, Error>)
        ensures
            match self.literal_spec(raw@) {
                Some(v) => r matches Ok(x) && x@ == v,
                None => r is Err,
            };
}

} // verus!
