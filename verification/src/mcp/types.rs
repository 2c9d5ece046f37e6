//! What the client side of the protocol knows of a server.

use vstd::prelude::*;
use crate::json::{Json, JsonV};

verus! {

/// How a server is reached.
#[derive(Debug, PartialEq)]
pub enum McpTransport {
    Http { url: String },
    Stdio { command: String, args: Vec<String> },
}

/// A server to connect to.
#[derive(Debug, PartialEq)]
pub struct McpServerConfig {
    pub name: String,
    pub transport: McpTransport,
    /// Whether a connection that turns unhealthy is made anew.
    pub auto_reconnect: bool,
}

/// A tool that a server offers.
#[derive(Debug, PartialEq)]
pub struct McpToolInfo {
    pub name: String,
    pub description: String,
    pub input_schema: Json,
}

/// The mathematical value of a [`McpToolInfo`].
pub struct ToolView {
    pub name: Seq<char>,
    pub description: Seq<char>,
    pub input_schema: JsonV,
}

impl View for McpToolInfo {
    type V = ToolView;

    open spec fn view(&self) -> ToolView {
        ToolView {
            name: self.name@,
            description: self.description@,
            input_schema: self.input_schema@,
        }
    }
}

/// The values of a list of tools.
pub open spec fn tool_views(v: Seq<McpToolInfo>) -> Seq<ToolView> {
    Seq::new(v.len(), |i: int| v[i]@)
}

impl McpToolInfo {
    /// A copy with the same value.
    pub fn copy(&self) -> (r: McpToolInfo)
        ensures
            r@ == self@,
    {
        McpToolInfo {
            name: self.name.clone(),
            description: self.description.clone(),
            input_schema: self.input_schema.copy(),
        }
    }
}

/// A copy of a list of tools.
pub fn copy_tools(v: &Vec<McpToolInfo>) -> (r: Vec<McpToolInfo>)
    ensures
        tool_views(r@) == tool_views(v@),
{
    let mut out: Vec<McpToolInfo> = Vec::new();
    let mut i: usize = 0;
    while i < v.len()
        invariant
            i <= v@.len(),
            tool_views(out@) == tool_views(v@).take(i as int),
        decreases v@.len() - i,
    {
        let ghost before = tool_views(out@);
        let t = v[i].copy();
        out.push(t);
        i += 1;
        assert(tool_views(out@) == before.push(t@));
        assert(tool_views(v@).take(i as int) == tool_views(v@).take(i - 1).push(v@[i - 1]@));
    }
    assert(tool_views(v@).take(v@.len() as int) == tool_views(v@));
    out
}

/// A tool stands for its name, its description and its schema, and a list of
/// tools for its tools in order.
pub proof fn law_tools_stand_for_their_fields(v: Seq<McpToolInfo>, i: int)
    requires
        0 <= i < v.len(),
    ensures
        tool_views(v).len() == v.len(),
        tool_views(v)[i].name == v[i].name@,
        tool_views(v)[i].description == v[i].description@,
        tool_views(v)[i].input_schema == v[i].input_schema@,
{
}

} // verus!
