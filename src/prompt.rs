//! Settings for building prompts that separate recalled memories from
//! static context.

use vstd::prelude::*;
use vstd::string::{StringExecFns, StringSliceAdditionalSpecFns};
use vstd::utf8::encode_utf8;
use crate::text::{decimal, decimal_of, trim_end_of, trim_end_text};

verus! {

/// Default longest memory section, in characters.
pub const DEFAULT_MAX_MEMORY_LENGTH: usize = 2000;

/// Default longest context section, in characters.
pub const DEFAULT_MAX_CONTEXT_LENGTH: usize = 4000;

/// How prompts are sectioned.
#[derive(Debug, Clone, Copy, PartialEq, Eq)]
pub struct PromptFormatter {
    /// Whether sections get header lines.
    pub include_headers: bool,
    /// Longest memory section, if limited.
    pub max_memory_length: Option<usize>,
    /// Longest context section, if limited.
    pub max_context_length: Option<usize>,
}

impl Default for PromptFormatter {
    fn default() -> (r: PromptFormatter)
        ensures
            r.include_headers,
            r.max_memory_length == Some(DEFAULT_MAX_MEMORY_LENGTH),
            r.max_context_length == Some(DEFAULT_MAX_CONTEXT_LENGTH),
    {
        PromptFormatter {
            include_headers: true,
            max_memory_length: Some(DEFAULT_MAX_MEMORY_LENGTH),
            max_context_length: Some(DEFAULT_MAX_CONTEXT_LENGTH),
        }
    }
}

impl PromptFormatter {
    /// The default settings: headers on, memories up to 2000 characters,
    /// context up to 4000.
    pub fn new() -> (r: PromptFormatter)
        ensures
            r.include_headers,
            r.max_memory_length == Some(DEFAULT_MAX_MEMORY_LENGTH),
            r.max_context_length == Some(DEFAULT_MAX_CONTEXT_LENGTH),
    {
        PromptFormatter::default()
    }

    /// These settings with headers switched on or off.
    pub fn with_headers(self, include_headers: bool) -> (r: PromptFormatter)
        ensures
            r == (PromptFormatter { include_headers, ..self }),
    {
        PromptFormatter { include_headers, ..self }
    }

    /// These settings with another memory section limit.
    pub fn with_max_memory_length(self, max_length: Option<usize>) -> (r: PromptFormatter)
        ensures
            r == (PromptFormatter { max_memory_length: max_length, ..self }),
    {
        PromptFormatter { max_memory_length: max_length, ..self }
    }

    /// These settings with another context section limit.
    pub fn with_max_context_length(self, max_length: Option<usize>) -> (r: PromptFormatter)
        ensures
            r == (PromptFormatter { max_context_length: max_length, ..self }),
    {
        PromptFormatter { max_context_length: max_length, ..self }
    }
}

/// A static document as it enters a prompt: its title, if any, and its text.
#[derive(Debug)]
pub struct ContextDocument {
    pub title: Option<String>,
    pub data: String,
}

/// The entry of document `d` at 1-based position `index`: `title: text`,
/// `Document <index>` standing in for a missing title.
pub open spec fn document_entry(d: ContextDocument, index: nat) -> Seq<char> {
    let title = match d.title {
        Some(t) => t@,
        None => "Document "@ + decimal_of(index),
    };
    title + ": "@ + d.data@
}

/// The heading of the documents section.
pub open spec fn documents_heading() -> Seq<char> {
    "--- CONTEXT DOCUMENTS ---\nStatic reference information:\n\n"@
}

/// The note that ends a section cut short.
pub open spec fn documents_truncated() -> Seq<char> {
    "[Additional documents truncated due to length limit]\n"@
}

/// `section` followed by the entries of `docs` from position `i` on, one per
/// line, until an entry would take the section past `max` bytes.
pub open spec fn documents_from(docs: Seq<ContextDocument>, i: int, section: Seq<char>, max: Option<usize>, headers: bool) -> Seq<char>
    decreases docs.len() - i,
{
    if i < 0 || i >= docs.len() {
        section
    } else {
        let text = document_entry(docs[i], (i + 1) as nat);
        if max is Some && byte_len(section) + byte_len(text) > max->0 {
            section + (if headers { documents_truncated() } else { Seq::<char>::empty() })
        } else {
            documents_from(docs, i + 1, section + text + "\n"@, max, headers)
        }
    }
}

impl PromptFormatter {
    /// The entry of one document.
    pub fn format_single_document(document: &ContextDocument, index: usize) -> (r: String)
        ensures
            r@ == document_entry(*document, index as nat),
    {
        let mut r = match &document.title {
            Some(t) => String::from_str(t.as_str()),
            None => {
                let mut d = String::from_str("Document ");
                let n = decimal(index);
                d.append(n.as_str());
                d
            },
        };
        r.append(": ");
        r.append(document.data.as_str());
        r
    }

    /// The section of static documents, or `None` when there are none: the
    /// heading (when headers are on), then one entry per line while the
    /// section stays within the context limit, with trailing white space
    /// removed.
    pub fn format_context_section(&self, documents: &Vec<ContextDocument>) -> (r: Option<String>)
        ensures
            documents@.len() == 0 ==> r is None,
            documents@.len() > 0 ==> (r matches Some(t) && t@ == trim_end_of(documents_from(
                documents@, 0, if self.include_headers { documents_heading() } else { Seq::<char>::empty() },
                self.max_context_length, self.include_headers))),
    {
        if documents.len() == 0 {
            return None;
        }
        let mut section = if self.include_headers {
            String::from_str("--- CONTEXT DOCUMENTS ---\nStatic reference information:\n\n")
        } else {
            String::new()
        };
        let ghost total = documents_from(documents@, 0, section@, self.max_context_length, self.include_headers);
        let mut i: usize = 0;
        let mut full = false;
        while i < documents.len() && !full
            invariant
                i <= documents@.len(),
                !full ==> documents_from(documents@, i as int, section@, self.max_context_length, self.include_headers) == total,
                full ==> section@ == total,
            decreases documents@.len() - i + (if full { 0int } else { 1int }),
        {
            let text = PromptFormatter::format_single_document(&documents[i], i + 1);
            let used = section.as_str().as_bytes().len();
            let text_len = text.as_str().as_bytes().len();
            let over = match self.max_context_length {
                Some(max_len) => text_len > max_len || used > max_len - text_len,
                None => false,
            };
            if over {
                if self.include_headers {
                    section.append("[Additional documents truncated due to length limit]\n");
                }
                proof {
                    if !self.include_headers {
                        assert(section@ + Seq::<char>::empty() =~= section@);
                    }
                }
                full = true;
            } else {
                section.append(text.as_str());
                section.append("\n");
                i = i + 1;
            }
        }
        Some(trim_end_text(section.as_str()))
    }
}

/// A recalled memory as it enters a prompt: where it came from, if known,
/// and its text.
#[derive(Debug)]
pub struct ContextMemory {
    pub source: Option<String>,
    pub content: String,
}

/// The heading of the context block.
pub open spec fn context_heading() -> Seq<char> {
    "## Relevant Context\n\n"@
}

/// The line of one memory: `- [source]: content`, `unknown` standing in for a
/// missing source.
pub open spec fn context_line(m: ContextMemory) -> Seq<char> {
    let source = match m.source {
        Some(s) => s@,
        None => "unknown"@,
    };
    "- ["@ + source + "]: "@ + m.content@ + "\n"@
}

/// Size in UTF-8 bytes.
pub open spec fn byte_len(s: Seq<char>) -> nat {
    encode_utf8(s).len()
}

/// The lines of `ms` in order, as long as the text so far (of `used` bytes)
/// stays within `max` bytes; the first line that does not fit ends it.
pub open spec fn fitting_lines(ms: Seq<ContextMemory>, used: nat, max: nat) -> Seq<char>
    decreases ms.len(),
{
    if ms.len() == 0 {
        Seq::<char>::empty()
    } else if used + byte_len(context_line(ms[0])) > max {
        Seq::<char>::empty()
    } else {
        context_line(ms[0]) + fitting_lines(ms.drop_first(), used + byte_len(context_line(ms[0])), max)
    }
}

proof fn lemma_byte_len_concat(a: Seq<char>, b: Seq<char>)
    ensures
        encode_utf8(a + b) == encode_utf8(a) + encode_utf8(b),
    decreases a.len(),
{
    if a.len() == 0 {
        assert(a + b =~= b);
        assert(encode_utf8(a) =~= Seq::<u8>::empty());
        assert(Seq::<u8>::empty() + encode_utf8(b) =~= encode_utf8(b));
    } else {
        lemma_byte_len_concat(a.drop_first(), b);
        assert((a + b).drop_first() =~= a.drop_first() + b);
        assert((a + b)[0] == a[0]);
    }
}

/// The line of one memory.
fn context_line_text(m: &ContextMemory) -> (r: String)
    ensures
        r@ == context_line(*m),
{
    let mut r = String::from_str("- [");
    match &m.source {
        Some(s) => r.append(s.as_str()),
        None => r.append("unknown"),
    }
    r.append("]: ");
    r.append(m.content.as_str());
    r.append("\n");
    r
}

/// The block of recalled memories for a prompt: the heading, then one line
/// per memory while the block stays within `max_chars` bytes.
pub fn format_memory_context(memories: &Vec<ContextMemory>, max_chars: usize) -> (r: String)
    ensures
        r@ == context_heading() + fitting_lines(memories@, byte_len(context_heading()), max_chars as nat),
{
    let mut result = String::from_str("## Relevant Context\n\n");
    let mut current_len: usize = result.as_str().as_bytes().len();
    let mut i: usize = 0;
    let ghost n = memories@.len();
    proof {
        assert(memories@.subrange(0, n as int) =~= memories@);
    }
    let mut full = false;
    while i < memories.len() && !full
        invariant
            i <= n,
            full ==> fitting_lines(memories@.subrange(i as int, n as int), current_len as nat, max_chars as nat) =~= Seq::<char>::empty(),
            n == memories@.len(),
            current_len == byte_len(result@),
            result@ + fitting_lines(memories@.subrange(i as int, n as int), current_len as nat, max_chars as nat)
                == context_heading() + fitting_lines(memories@, byte_len(context_heading()), max_chars as nat),
        decreases n - i + (if full { 0int } else { 1int }),
    {
        let entry = context_line_text(&memories[i]);
        let entry_len = entry.as_str().as_bytes().len();
        let ghost rest = memories@.subrange(i as int, n as int);
        proof {
            assert(rest[0] == memories@[i as int]);
            assert(rest.drop_first() =~= memories@.subrange(i + 1, n as int));
        }
        if entry_len > max_chars || current_len > max_chars - entry_len {
            proof {
                assert(fitting_lines(rest, current_len as nat, max_chars as nat) =~= Seq::<char>::empty());
            }
            full = true;
        } else {
            let ghost before = result@;
            result.append(entry.as_str());
            proof {
                lemma_byte_len_concat(before, entry@);
                assert(before + (entry@ + fitting_lines(rest.drop_first(), (current_len + entry_len) as nat, max_chars as nat))
                    =~= result@ + fitting_lines(rest.drop_first(), (current_len + entry_len) as nat, max_chars as nat));
            }
            current_len = current_len + entry_len;
            i = i + 1;
        }
    }
    proof {
        if !full {
            assert(memories@.subrange(n as int, n as int).len() == 0);
        }
        assert(result@ + Seq::<char>::empty() =~= result@);
    }
    result
}

} // verus!
