//! What the server says of itself, and how it makes itself known to the workstation.

use crate::osc::{args_view, message, ArgView, MessageView, OscArg, OscMessage};
use crate::text::{chars_of, parse_i32, parsed_i32, rest_behind};
use vstd::prelude::*;
use vstd::string::*;

verus! {

/// What the server says of itself.
#[derive(Debug)]
pub struct ServerDescription {
    pub protocol_version: String,
    pub name: String,
    pub version: String,
    pub instructions: String,
    /// Whether it tells of changes in its tools; that it has tools is said by this.
    pub tools_list_changed: Option<bool>,
    /// Whether its resources can be subscribed to.
    pub resources_subscribe: Option<bool>,
    /// Whether it tells of changes in its resources.
    pub resources_list_changed: Option<bool>,
}

/// What the server says of itself, in the given version.
pub fn get_info(version: String) -> (r: ServerDescription)
    ensures
        r.protocol_version@ == "2024-11-05"@,
        r.name@ == "Ardour MCP Server (Rust)"@,
        r.version == version,
        r.instructions@ == "This server controls Ardour DAW transport functions."@,
        r.tools_list_changed == Some(false),
        r.resources_subscribe == Some(false),
        r.resources_list_changed == Some(false),
{
    ServerDescription {
        protocol_version: "2024-11-05".to_owned(),
        name: "Ardour MCP Server (Rust)".to_owned(),
        version,
        instructions: "This server controls Ardour DAW transport functions.".to_owned(),
        tools_list_changed: Some(false),
        resources_subscribe: Some(false),
        resources_list_changed: Some(false),
    }
}

/// How many colons stand in a text.
pub open spec fn colons(s: Seq<char>) -> nat
    decreases s.len(),
{
    if s.len() == 0 {
        0
    } else {
        colons(s.drop_last()) + if s.last() == ':' {
            1nat
        } else {
            0
        }
    }
}

/// What stands behind the last colon of a text.
pub open spec fn behind_colon(s: Seq<char>) -> Seq<char>
    decreases s.len(),
{
    if s.len() == 0 || s.last() == ':' {
        Seq::empty()
    } else {
        behind_colon(s.drop_last()).push(s.last())
    }
}

/// Why an address gives no port.
#[derive(Clone, Copy, Debug, PartialEq, Eq, Structural)]
pub enum PortError {
    /// It is not made of two parts with a colon between them.
    NotTwoParts,
    /// The second part is not a number.
    NotANumber,
}

/// The port of an address.
pub open spec fn port_of(addr: Seq<char>) -> Result<i32, PortError> {
    if colons(addr) != 1 {
        Err(PortError::NotTwoParts)
    } else {
        match parsed_i32(behind_colon(addr)) {
            Some(port) => Ok(port),
            None => Err(PortError::NotANumber),
        }
    }
}

/// The port of an address.
pub fn read_port(addr: &str) -> (r: Result<i32, PortError>)
    ensures
        r == port_of(addr@),
{
    let text = chars_of(addr);
    let mut count: usize = 0;
    let mut start: usize = 0;
    let mut i: usize = 0;
    assert(addr@.take(0) =~= Seq::<char>::empty());
    assert(addr@.subrange(0, 0) =~= Seq::<char>::empty());
    while i < text.len()
        invariant
            text@ == addr@,
            i <= text.len(),
            count <= i,
            start <= i,
            count == colons(addr@.take(i as int)),
            addr@.subrange(start as int, i as int) == behind_colon(addr@.take(i as int)),
        decreases text.len() - i,
    {
        proof {
            assert(addr@.take(i + 1).drop_last() =~= addr@.take(i as int));
            assert(addr@.take(i + 1).last() == text@[i as int]);
            assert(addr@.subrange(start as int, i + 1) =~= addr@.subrange(
                start as int,
                i as int,
            ).push(text@[i as int]));
            assert(addr@.subrange(i + 1, i + 1) =~= Seq::<char>::empty());
        }
        if text[i] == ':' {
            count = count + 1;
            start = i + 1;
        }
        i = i + 1;
    }
    assert(addr@.take(i as int) =~= addr@);
    if count != 1 {
        return Err(PortError::NotTwoParts);
    }
    match parse_i32(rest_behind(addr, start).as_str()) {
        Some(port) => Ok(port),
        None => Err(PortError::NotANumber),
    }
}

/// The kinds of strips that are asked for: all of them.
pub const STRIP_TYPES: i32 = 2047;

/// What is to be reported: all of it, the values of parameters among them.
pub const FEEDBACK: i32 = 131071;

/// The message that makes the workstation report to a port.
pub open spec fn surface_message(port: i32) -> MessageView {
    MessageView {
        addr: "/set_surface"@,
        args: seq![
            ArgView::Int(0),
            ArgView::Int(STRIP_TYPES),
            ArgView::Int(FEEDBACK),
            ArgView::Int(0),
            ArgView::Int(0),
            ArgView::Int(0),
            ArgView::Int(port),
            ArgView::Int(0),
            ArgView::Int(0),
        ],
    }
}

/// Makes the workstation report to a port.
pub fn set_surface(port: i32) -> (r: OscMessage)
    ensures
        r@ == surface_message(port),
{
    let mut args: Vec<OscArg> = Vec::new();
    args.push(OscArg::Int(0));
    args.push(OscArg::Int(STRIP_TYPES));
    args.push(OscArg::Int(FEEDBACK));
    args.push(OscArg::Int(0));
    args.push(OscArg::Int(0));
    args.push(OscArg::Int(0));
    args.push(OscArg::Int(port));
    args.push(OscArg::Int(0));
    args.push(OscArg::Int(0));
    assert(args_view(args@) =~= surface_message(port).args);
    message("/set_surface", args)
}

} // verus!
