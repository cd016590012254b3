//! Agent-side configuration values: MCP server settings, conversation
//! messages, chat-loop control and library handles.

use vstd::prelude::*;
use vstd::string::StringExecFns;

verus! {

/// How an MCP server is reached, and how it is started.
#[derive(Debug, Clone)]
pub struct McpServerConfig {
    /// Server kind (`stdio`, `socket`, ...).
    pub server_type: String,
    /// Path of the server binary.
    pub bin_path: Option<String>,
    /// Command that starts the server.
    pub init_command: Option<String>,
}

/// The view of an optional string.
pub open spec fn opt_view(o: Option<String>) -> Option<Seq<char>> {
    match o {
        Some(s) => Some(s@),
        None => None,
    }
}

/// The view of an optional string slice.
pub open spec fn opt_str_view(o: Option<&str>) -> Option<Seq<char>> {
    match o {
        Some(s) => Some(s@),
        None => None,
    }
}

/// A borrowed view of an optional string.
fn as_opt_str(o: &Option<String>) -> (r: Option<&str>)
    ensures
        opt_str_view(r) == opt_view(*o),
{
    match o {
        Some(s) => Some(s.as_str()),
        None => None,
    }
}

impl McpServerConfig {
    /// A configuration from its three parts.
    pub fn new(server_type: String, bin_path: Option<String>, init_command: Option<String>) -> (r: McpServerConfig)
        ensures
            r.server_type == server_type,
            r.bin_path == bin_path,
            r.init_command == init_command,
    {
        McpServerConfig { server_type, bin_path, init_command }
    }

    /// A server started from a binary and spoken to over stdio.
    pub fn stdio(bin_path: &str) -> (r: McpServerConfig)
        ensures
            r.server_type@ == "stdio"@,
            opt_view(r.bin_path) == Some(bin_path@),
            r.init_command is None,
    {
        McpServerConfig {
            server_type: String::from_str("stdio"),
            bin_path: Some(String::from_str(bin_path)),
            init_command: None,
        }
    }

    /// A server reached over a socket, started by a command.
    pub fn socket(init_command: &str) -> (r: McpServerConfig)
        ensures
            r.server_type@ == "socket"@,
            r.bin_path is None,
            opt_view(r.init_command) == Some(init_command@),
    {
        McpServerConfig {
            server_type: String::from_str("socket"),
            bin_path: None,
            init_command: Some(String::from_str(init_command)),
        }
    }

    /// The server kind.
    pub fn server_type(&self) -> (r: &str)
        ensures
            r@ == self.server_type@,
    {
        self.server_type.as_str()
    }

    /// The binary path, if any.
    pub fn bin_path(&self) -> (r: Option<&str>)
        ensures
            opt_str_view(r) == opt_view(self.bin_path),
    {
        as_opt_str(&self.bin_path)
    }

    /// The start command, if any.
    pub fn init_command(&self) -> (r: Option<&str>)
        ensures
            opt_str_view(r) == opt_view(self.init_command),
    {
        as_opt_str(&self.init_command)
    }
}

/// One message of an agent conversation.
#[derive(Debug, Clone)]
pub struct CandleAgentConversationMessage {
    pub content: String,
}

impl CandleAgentConversationMessage {
    /// The message text.
    pub fn message(&self) -> (r: &str)
        ensures
            r@ == self.content@,
    {
        self.content.as_str()
    }
}

/// What a chat turn asks of the loop.
#[derive(Debug, Clone, PartialEq, Eq)]
pub enum CandleChatLoop {
    /// End the conversation.
    Break,
    /// Answer the user's message.
    UserPrompt(String),
    /// Prompt the model again with this text.
    Reprompt(String),
}

/// The default turn handler: prompt again with `continue`.
pub fn process_turn() -> (r: CandleChatLoop)
    ensures
        r matches CandleChatLoop::Reprompt(s) && s@ == "continue"@,
{
    CandleChatLoop::Reprompt(String::from_str("continue"))
}

/// A handle on a named memory library.
#[derive(Debug, Clone)]
pub struct CandleLibrary {
    pub name: String,
}

impl CandleLibrary {
    /// The library called `name`.
    pub fn named(name: &str) -> (r: CandleLibrary)
        ensures
            r.name@ == name@,
    {
        CandleLibrary { name: String::from_str(name) }
    }
}

} // verus!
