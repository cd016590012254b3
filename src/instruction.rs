//! Task instructions that prefix texts before they are embedded: queries get
//! an instruction, stored documents none.

use vstd::prelude::*;
use crate::text::{concat_str, same_text};
use vstd::string::StringExecFns;

verus! {

/// Instruction for search-style tasks.
pub open spec fn query_instruction() -> Seq<char> {
    "Given a web search query, retrieve relevant passages that answer the query."@
}

/// Instruction for similarity-style tasks.
pub open spec fn similarity_instruction() -> Seq<char> {
    "Retrieve semantically similar text."@
}

/// The view of an optional task name.
pub open spec fn task_view(task: Option<&str>) -> Option<Seq<char>> {
    match task {
        Some(t) => Some(t@),
        None => None,
    }
}

/// The instruction for a task: `s2s`, `classification` and `clustering` ask
/// for similar text; every other task, unknown ones and none included, is a
/// search query.
pub open spec fn instruction_for(task: Option<Seq<char>>) -> Seq<char> {
    match task {
        Some(t) => if t == "s2s"@ || t == "classification"@ || t == "clustering"@ {
            similarity_instruction()
        } else {
            query_instruction()
        },
        None => query_instruction(),
    }
}

/// A text as it is embedded for a task: documents as they are, anything else
/// after its instruction.
pub open spec fn formatted_for(text: Seq<char>, task: Option<Seq<char>>) -> Seq<char> {
    if task == Some("document"@) {
        text
    } else {
        "Instruct: "@ + instruction_for(task) + "\nQuery: "@ + text
    }
}

/// The instruction string for `task`.
pub fn get_instruction(task: Option<&str>) -> (r: &'static str)
    ensures
        r@ == instruction_for(task_view(task)),
{
    match task {
        Some(t) => {
            if same_text(t, "s2s") || same_text(t, "classification") || same_text(t, "clustering") {
                "Retrieve semantically similar text."
            } else {
                "Given a web search query, retrieve relevant passages that answer the query."
            }
        },
        None => "Given a web search query, retrieve relevant passages that answer the query.",
    }
}

/// Whether `task` is the document task.
fn is_document_task(task: Option<&str>) -> (r: bool)
    ensures
        r == (task_view(task) == Some("document"@)),
{
    match task {
        Some(t) => same_text(t, "document"),
        None => false,
    }
}

/// One text prefixed for `task`.
pub fn format_single_with_instruction(text: &str, task: Option<&str>) -> (r: String)
    ensures
        r@ == formatted_for(text@, task_view(task)),
{
    if is_document_task(task) {
        return String::from_str(text);
    }
    let mut r = concat_str("Instruct: ", get_instruction(task));
    r.append("\nQuery: ");
    r.append(text);
    r
}

/// Each text prefixed for `task`, in order.
pub fn format_with_instruction(texts: &[&str], task: Option<&str>) -> (r: Vec<String>)
    ensures
        r@.len() == texts@.len(),
        forall|i: int| 0 <= i < texts@.len() ==> (#[trigger] r@[i])@ == formatted_for(texts@[i]@, task_view(task)),
{
    let mut r: Vec<String> = Vec::new();
    let mut i: usize = 0;
    while i < texts.len()
        invariant
            i <= texts@.len(),
            r@.len() == i,
            forall|j: int| 0 <= j < i ==> (#[trigger] r@[j])@ == formatted_for(texts@[j]@, task_view(task)),
        decreases texts.len() - i,
    {
        r.push(format_single_with_instruction(texts[i], task));
        i = i + 1;
    }
    r
}

} // verus!
