use vstd::prelude::*;

use crate::text::copy_str;

verus! {

/// The choice that asks for a new category.
pub const CHOICE_NEW_CATEGORY: &'static str = "__new__";

/// The choice that skips a transaction.
pub const CHOICE_SKIP: &'static str = "__skip__";

/// Interactive prompts while tagging, for an interface to implement.
pub trait Prompter {
    /// Presents category options and returns the user's choice.
    fn select_category(&mut self, options: &[String]) -> Result<String, String>;

    /// Prompts for a new category name.
    fn input_category(&mut self) -> Result<String, String>;

    /// Prompts for a pattern, pre-filled with `suggested`.
    fn input_pattern(&mut self, suggested: &str) -> Result<String, String>;
}

/// The prompter of non-interactive use: every prompt is refused.
pub struct NoopPrompter;

pub open spec fn no_prompts_message() -> Seq<char> {
    "interactive prompts are not available in non-TUI mode"@
}

impl Prompter for NoopPrompter {
    fn select_category(&mut self, options: &[String]) -> (r: Result<String, String>)
        ensures
            r is Err && r->Err_0@ == no_prompts_message(),
    {
        Err(copy_str("interactive prompts are not available in non-TUI mode"))
    }

    fn input_category(&mut self) -> (r: Result<String, String>)
        ensures
            r is Err && r->Err_0@ == no_prompts_message(),
    {
        Err(copy_str("interactive prompts are not available in non-TUI mode"))
    }

    fn input_pattern(&mut self, suggested: &str) -> (r: Result<String, String>)
        ensures
            r is Err && r->Err_0@ == no_prompts_message(),
    {
        Err(copy_str("interactive prompts are not available in non-TUI mode"))
    }
}

} // verus!
