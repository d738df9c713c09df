use crate::ast::{Environment, AST};
use vstd::prelude::*;

verus! {

/// What the embedding program supplies to the evaluator: its native functions, the
/// loading of modules, and arithmetic on decimal numbers, which this crate holds as
/// IEEE-754 binary64 bit patterns and never computes with itself.
///
/// No method promises anything of its result: the evaluator's contract says what
/// holds whatever came back.
pub trait Host {
    /// Runs the native function `name` on the unevaluated `args` in the live
    /// environment. To evaluate an argument, the function calls the evaluator with
    /// the `depth` it was given.
    fn call_native(
        &self,
        name: &String,
        args: Vec<AST>,
        env: &mut Environment,
        depth: usize,
    ) -> Result<AST, String>;

    /// Reads the module `file` and parses it into its top-level nodes.
    fn load_module(&self, file: &String) -> Result<Vec<AST>, String>;

    /// The sum of two decimal numbers.
    fn float_add(&self, a: u64, b: u64) -> u64;

    /// The difference of two decimal numbers.
    fn float_sub(&self, a: u64, b: u64) -> u64;

    /// The decimal number nearest to a whole number.
    fn float_from_int(&self, n: i64) -> u64;

    /// The text of a decimal number, as it stands in messages.
    fn float_text(&self, a: u64) -> String;
}

} // verus!
