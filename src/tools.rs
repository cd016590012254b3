//! Texts of the memory tools' replies that do not depend on timing.

use vstd::prelude::*;
use crate::text::{decimal, decimal_of};
use crate::store::{type_count, LibraryStore, MemoryType};
use vstd::string::StringExecFns;

verus! {

/// The reply text when a memorize session has started.
pub open spec fn started_text(session_id: Seq<char>, library: Seq<char>) -> Seq<char> {
    "\u{2713} Memorization started\n\nSession: "@ + session_id + "\nLibrary: "@ + library
        + "\nStatus: IN_PROGRESS\n\nUse check_memorize_status to monitor progress"@
}

/// Reply text of `memorize`.
pub fn memorize_started_summary(session_id: &str, library: &str) -> (r: String)
    ensures
        r@ == started_text(session_id@, library@),
{
    let mut r = String::from_str("\u{2713} Memorization started\n\nSession: ");
    r.append(session_id);
    r.append("\nLibrary: ");
    r.append(library);
    r.append("\nStatus: IN_PROGRESS\n\nUse check_memorize_status to monitor progress");
    r
}

/// The bullet lines of a library list, one per name.
pub open spec fn bullet_lines(names: Seq<String>) -> Seq<char>
    decreases names.len(),
{
    if names.len() == 0 {
        Seq::<char>::empty()
    } else if names.len() == 1 {
        "  \u{2022} "@ + names[0]@
    } else {
        bullet_lines(names.drop_last()) + "\n  \u{2022} "@ + names.last()@
    }
}

/// The reply text of `list_memory_libraries` for `names`.
pub open spec fn libraries_text(names: Seq<String>) -> Seq<char> {
    if names.len() == 0 {
        "\u{2713} No memory libraries found\n\nCreate a library by using memorize with a new library name"@
    } else {
        "\u{2713} Memory libraries found ("@ + decimal_of(names.len()) + ")\n\n"@ + bullet_lines(names)
    }
}

/// Reply text of `list_memory_libraries`.
pub fn libraries_summary(names: &Vec<String>) -> (r: String)
    ensures
        r@ == libraries_text(names@),
{
    if names.len() == 0 {
        return String::from_str("\u{2713} No memory libraries found\n\nCreate a library by using memorize with a new library name");
    }
    let mut lines = String::new();
    let mut i: usize = 0;
    while i < names.len()
        invariant
            i <= names@.len(),
            lines@ == bullet_lines(names@.subrange(0, i as int)),
        decreases names.len() - i,
    {
        if i == 0 {
            lines.append("  \u{2022} ");
        } else {
            lines.append("\n  \u{2022} ");
        }
        lines.append(names[i].as_str());
        proof {
            let pre = names@.subrange(0, i + 1);
            assert(pre.drop_last() =~= names@.subrange(0, i as int));
            assert(pre.last() == names@[i as int]);
            if i == 0 {
                assert(pre.len() == 1);
                assert(pre[0] == names@[0]);
            }
        }
        i = i + 1;
    }
    proof {
        assert(names@.subrange(0, names@.len() as int) =~= names@);
    }
    let mut r = String::from_str("\u{2713} Memory libraries found (");
    let count = decimal(names.len());
    r.append(count.as_str());
    r.append(")\n\n");
    r.append(lines.as_str());
    r
}

/// The lower-case name of a memory type.
pub open spec fn type_label(t: MemoryType) -> Seq<char> {
    match t {
        MemoryType::Episodic => "episodic"@,
        MemoryType::Semantic => "semantic"@,
        MemoryType::Procedural => "procedural"@,
        MemoryType::Working => "working"@,
        MemoryType::LongTerm => "longterm"@,
    }
}

/// The lower-case name of a memory type.
pub fn memory_type_label(t: MemoryType) -> (r: &'static str)
    ensures
        r@ == type_label(t),
{
    match t {
        MemoryType::Episodic => "episodic",
        MemoryType::Semantic => "semantic",
        MemoryType::Procedural => "procedural",
        MemoryType::Working => "working",
        MemoryType::LongTerm => "longterm",
    }
}

/// The metric line counting memories of type `t` in `s`.
pub open spec fn type_metric_line(s: Seq<crate::store::MemoryRecord>, t: MemoryType) -> Seq<char> {
    "memory_count_by_type{type=\""@ + type_label(t) + "\"} "@ + decimal_of(type_count(s, t)) + "\n"@
}

/// The gauges of a library in the Prometheus text format: health, total
/// count, and the count of each memory type.
pub open spec fn count_metrics_text(s: Seq<crate::store::MemoryRecord>, healthy: bool) -> Seq<char> {
    "# HELP memory_manager_healthy Memory manager health status (1=healthy, 0=unhealthy)\n# TYPE memory_manager_healthy gauge\nmemory_manager_healthy "@
        + (if healthy { "1"@ } else { "0"@ })
        + "\n# HELP memory_total_count Total number of memories\n# TYPE memory_total_count gauge\nmemory_total_count "@
        + decimal_of(s.len()) + "\n# HELP memory_count_by_type Memory count per type\n# TYPE memory_count_by_type gauge\n"@
        + type_metric_line(s, MemoryType::Episodic) + type_metric_line(s, MemoryType::Semantic)
        + type_metric_line(s, MemoryType::Procedural) + type_metric_line(s, MemoryType::Working)
        + type_metric_line(s, MemoryType::LongTerm)
}

/// Appends the metric line for type `t`.
fn push_type_metric(out: &mut String, store: &LibraryStore, t: MemoryType)
    ensures
        final(out)@ == old(out)@ + type_metric_line(store.records@, t),
{
    out.append("memory_count_by_type{type=\"");
    out.append(memory_type_label(t));
    out.append("\"} ");
    let n = decimal(store.count_by_type(t));
    out.append(n.as_str());
    out.append("\n");
}

/// The count gauges of a library.
pub fn count_metrics(store: &LibraryStore, healthy: bool) -> (r: String)
    ensures
        r@ == count_metrics_text(store.records@, healthy),
{
    let mut out = String::from_str("# HELP memory_manager_healthy Memory manager health status (1=healthy, 0=unhealthy)\n# TYPE memory_manager_healthy gauge\nmemory_manager_healthy ");
    out.append(if healthy { "1" } else { "0" });
    out.append("\n# HELP memory_total_count Total number of memories\n# TYPE memory_total_count gauge\nmemory_total_count ");
    let total = decimal(store.count());
    out.append(total.as_str());
    out.append("\n# HELP memory_count_by_type Memory count per type\n# TYPE memory_count_by_type gauge\n");
    push_type_metric(&mut out, store, MemoryType::Episodic);
    push_type_metric(&mut out, store, MemoryType::Semantic);
    push_type_metric(&mut out, store, MemoryType::Procedural);
    push_type_metric(&mut out, store, MemoryType::Working);
    push_type_metric(&mut out, store, MemoryType::LongTerm);
    out
}

} // verus!
