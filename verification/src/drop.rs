//! The drop area of the window: one dropped path is handed to `auto`, more
//! than one is refused without doing anything.

use vstd::prelude::*;

verus! {

/// What to do with a drop.
#[derive(Debug, Clone, PartialEq, Eq)]
pub enum DropAction {
    /// Run `auto` on this path.
    Run(String),
    /// Do nothing and show this message.
    Refuse(String),
}

/// The message shown when more than one item (or none) is dropped.
pub open spec fn one_at_a_time_message() -> Seq<char> {
    "一度に1つだけドロップしてください"@
}

/// Decides what to do with the dropped paths: exactly one is run.
pub fn handle_drop(paths: &Vec<String>) -> (a: DropAction)
    ensures
        paths.len() == 1 ==> (a matches DropAction::Run(p) && p@ == paths[0]@),
        paths.len() != 1 ==> (a matches DropAction::Refuse(m) && m@ == one_at_a_time_message()),
{
    if paths.len() != 1 {
        return DropAction::Refuse(String::from_str("一度に1つだけドロップしてください"));
    }
    DropAction::Run(paths[0].clone())
}

/// The status line after running `auto`: its message, or the error after
/// "エラー: ".
pub fn drop_status(outcome: Result<String, String>) -> (s: String)
    ensures
        outcome matches Ok(m) ==> s@ == m@,
        outcome matches Err(e) ==> s@ == "エラー: "@ + e@,
{
    match outcome {
        Ok(m) => m,
        Err(e) => {
            let mut s = String::from_str("エラー: ");
            s.append(e.as_str());
            s
        },
    }
}

} // verus!
