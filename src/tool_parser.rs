//! Detection of `<tool_call>...</tool_call>` blocks in streamed model output.

use vstd::prelude::*;
use crate::text::{
    chars_of, concat_str, contains_exec, contains_seq, find_first, first_occurrence,
    string_from_chars, tail_from, head_until,
};

verus! {

/// The name and the serialized arguments that serde_json reads from the JSON
/// text `s` (trimmed) as `{"name": ..., "arguments": ...}`; `None` when it is
/// not JSON or has no string `name`.
pub uninterp spec fn tool_call_of(s: Seq<char>) -> Option<(Seq<char>, Seq<char>)>;

/// Relies on `serde_json::from_str`, `Value::as_str` and `serde_json::to_string`:
/// parses the trimmed text, reads the `name` string and re-serializes
/// `arguments` (`null` when absent).
#[verifier::external_body]
fn decode_tool_call(json: &str) -> (r: Option<(String, String)>)
    ensures
        r is None <==> tool_call_of(json@) is None,
        r matches Some((n, a)) ==> tool_call_of(json@) == Some((n@, a@)),
{
    let v: serde_json::Value = serde_json::from_str(json.trim()).ok()?;
    let name = v["name"].as_str()?.to_string();
    let arguments = serde_json::to_string(&v["arguments"]).ok()?;
    Some((name, arguments))
}

/// A tool call read from model output.
#[derive(Debug, Clone)]
pub struct ToolCall {
    /// Tool name.
    pub name: String,
    /// Arguments as JSON text.
    pub arguments: String,
}

/// The opening tag.
pub open spec fn open_tag() -> Seq<char> {
    "<tool_call>"@
}

/// The closing tag.
pub open spec fn close_tag() -> Seq<char> {
    "</tool_call>"@
}

/// The parser state: text not yet classified, whether a call is open, and the
/// content that came with the opening tag. Inside a call, later tokens wait in
/// the buffer until the closing tag arrives, so the text between the tags is
/// parsed exactly once.
pub type ParserState = (Seq<char>, bool, Seq<char>);

/// The state after `token`, and the call it completes, if any.
pub open spec fn token_step(o: ParserState, token: Seq<char>) -> (ParserState, Option<(Seq<char>, Seq<char>)>) {
    let buf = o.0 + token;
    if !o.1 && contains_seq(buf, open_tag()) {
        let idx = first_occurrence(buf, open_tag());
        ((Seq::<char>::empty(), true, buf.subrange(idx + 11, buf.len() as int)), None)
    } else if o.1 && !contains_seq(buf, close_tag()) {
        ((buf, true, o.2), None)
    } else if o.1 {
        let idx = first_occurrence(buf, close_tag());
        ((Seq::<char>::empty(), false, Seq::<char>::empty()), tool_call_of(o.2 + buf.subrange(0, idx)))
    } else {
        ((buf, false, o.2), None)
    }
}

/// Stateful detector of tool calls in a token stream.
#[derive(Debug)]
pub struct ToolCallParser {
    /// Text not yet classified.
    pub buffer: String,
    /// Whether a `<tool_call>` is open.
    pub in_tool_call: bool,
    /// Content that came with the opening tag.
    pub tool_call_content: String,
}

impl ToolCallParser {
    /// The parser's state.
    pub open spec fn state(&self) -> ParserState {
        (self.buffer@, self.in_tool_call, self.tool_call_content@)
    }

    /// A parser with nothing buffered.
    pub fn new() -> (r: ToolCallParser)
        ensures
            r.state() == (Seq::<char>::empty(), false, Seq::<char>::empty()),
    {
        ToolCallParser { buffer: String::new(), in_tool_call: false, tool_call_content: String::new() }
    }

    /// Forgets everything buffered.
    pub fn reset(&mut self)
        ensures
            final(self).state() == (Seq::<char>::empty(), false, Seq::<char>::empty()),
    {
        self.buffer = String::new();
        self.in_tool_call = false;
        self.tool_call_content = String::new();
    }

    /// Takes the next token and returns the tool call it completes, if any.
    pub fn process_token(&mut self, token: &str) -> (r: Option<ToolCall>)
        ensures
            final(self).state() == token_step(old(self).state(), token@).0,
            r is Some <==> token_step(old(self).state(), token@).1 is Some,
            r matches Some(c) ==> token_step(old(self).state(), token@).1 == Some((c.name@, c.arguments@)),
    {
        proof {
            reveal_strlit("<tool_call>");
            reveal_strlit("</tool_call>");
        }
        let buf_text = concat_str(self.buffer.as_str(), token);
        let buf = chars_of(buf_text.as_str());
        let open = chars_of("<tool_call>");
        let close = chars_of("</tool_call>");
        if !self.in_tool_call {
            match find_first(&buf, &open) {
                Some(idx) => {
                    let n = buf.len();
                    proof {
                        assert(open@.len() == 11);
                        assert(idx + open@.len() <= n);
                    }
                    let start: usize = idx + open.len();
                    let after = tail_from(&buf, start);
                    self.in_tool_call = true;
                    self.tool_call_content = string_from_chars(&after);
                    self.buffer = String::new();
                    None
                },
                None => {
                    self.buffer = buf_text;
                    None
                },
            }
        } else {
            match find_first(&buf, &close) {
                None => {
                    self.buffer = buf_text;
                    None
                },
                Some(idx) => {
                    let before = string_from_chars(&head_until(&buf, idx));
                    let content = concat_str(self.tool_call_content.as_str(), before.as_str());
                    let result = decode_tool_call(content.as_str());
                    self.in_tool_call = false;
                    self.tool_call_content = String::new();
                    self.buffer = String::new();
                    match result {
                        Some((name, arguments)) => Some(ToolCall { name, arguments }),
                        None => None,
                    }
                },
            }
        }
    }
}

} // verus!
