use vstd::prelude::*;

use crate::event::channel::{channel_debug_name, channel_wire_name, Channel};
use crate::event::payload::{AckStatus, CommandAckEvent, CommandEvent, InputEvent};
use crate::json::{entries_get, Json, JsonMap, JsonValue};

verus! {

/// Iteration cap handed to the rule processor between two ticks (the
/// processor does not enforce it yet).
pub const MAX_RULE_ITERATIONS: u32 = 1024;

// ---------------------------------------------------------------------
// Routing JSONL lines.
// ---------------------------------------------------------------------

/// The channel whose wire name is `name`.
pub open spec fn channel_named(name: Seq<char>) -> Option<Channel> {
    if exists|c: Channel| channel_wire_name(c) == name {
        Some(choose|c: Channel| channel_wire_name(c) == name)
    } else {
        None
    }
}

/// Splitting a parsed JSONL line into its channel and the remaining
/// members: the line must be an object with a `channel` member naming a
/// channel.
pub open spec fn line_outcome(j: Json) -> Result<(Channel, Json), Seq<char>> {
    match j {
        Json::Object(m) => match entries_get(m, "channel"@) {
            None => Err("JSONL line must contain channel"@),
            Some(Json::Str(s)) => match channel_named(s) {
                Some(c) => Ok((c, Json::Object(m.remove(choose|i: int| 0 <= i < m.len() && m[i].0 == "channel"@)))),
                None => Err("parse channel"@),
            },
            Some(_) => Err("parse channel"@),
        },
        _ => Err("JSONL line must be an object"@),
    }
}

/// Splits a parsed JSONL line into its channel and the remaining members.
pub fn parse_jsonl_line(line: JsonValue) -> (r: Result<(Channel, JsonValue), String>)
    ensures
        match line_outcome(line@) {
            Ok((c, rest)) => r matches Ok((x, v)) && x == c && v@ == rest,
            Err(m) => r matches Err(x) && x@ == m,
        },
{
    match line {
        JsonValue::Object(mut object) => {
            let ghost before = object@;
            match object.remove("channel") {
                None => Err("JSONL line must contain channel".to_owned()),
                Some(JsonValue::String(name)) => match Channel::from_wire_name(name.as_str()) {
                    Some(c) => {
                        proof {
                            let i = choose|i: int|
                                0 <= i < before.len() && before[i].0 == "channel"@ && object@ == before.remove(i);
                            let j = choose|j: int| 0 <= j < before.len() && before[j].0 == "channel"@;
                            if i != j {
                                if i < j {
                                    assert(before[i].0 != before[j].0);
                                } else {
                                    assert(before[j].0 != before[i].0);
                                }
                            }
                            let d = choose|d: Channel| channel_wire_name(d) == name@;
                            crate::event::channel::lemma_wire_name_injective(c, d);
                        }
                        Ok((c, JsonValue::Object(object)))
                    },
                    None => Err("parse channel".to_owned()),
                },
                Some(_) => Err("parse channel".to_owned()),
            }
        },
        _ => Err("JSONL line must be an object".to_owned()),
    }
}

/// Where a parsed JSONL line goes.
#[derive(Debug)]
pub enum LineRoute {
    /// A command to parse from these members.
    Command(JsonValue),
    /// Raw input to parse from these members.
    Input(JsonValue),
    /// Refused with this message.
    Reject(String),
}

/// Routes a parsed JSONL line to the command or input parser, or refuses
/// it with the message the acknowledgement carries.
pub fn route_line(line: JsonValue) -> (r: LineRoute)
    ensures
        match line_outcome(line@) {
            Ok((Channel::Command, rest)) => r matches LineRoute::Command(v) && v@ == rest,
            Ok((Channel::Input, rest)) => r matches LineRoute::Input(v) && v@ == rest,
            Ok((c, _)) => r matches LineRoute::Reject(m) && m@ == "unsupported inbound channel "@
                + channel_debug_name(c),
            Err(m) => r matches LineRoute::Reject(x) && x@ == m,
        },
{
    match parse_jsonl_line(line) {
        Ok((Channel::Command, rest)) => LineRoute::Command(rest),
        Ok((Channel::Input, rest)) => LineRoute::Input(rest),
        Ok((c, _)) => {
            let mut m = "unsupported inbound channel ".to_owned();
            m.append(c.debug_name());
            LineRoute::Reject(m)
        },
        Err(m) => LineRoute::Reject(m),
    }
}

// ---------------------------------------------------------------------
// Commands.
// ---------------------------------------------------------------------

/// What the session does for a command.
#[derive(Debug)]
pub enum CommandPlan {
    /// Advance `count` ticks, write what they produced, acknowledge.
    Step { count: u32 },
    /// Write a snapshot of the world, acknowledge.
    Snapshot,
    /// Map and process one raw input event, write what it produced,
    /// acknowledge.
    SimulateInput { event: InputEvent },
    /// Acknowledge with an error carrying this message.
    Reject { message: String },
}

/// The plan for a command. Inspect queries and the persistence and
/// pacing commands are not supported.
pub fn plan_command(command: CommandEvent) -> (r: CommandPlan)
    ensures
        match command {
            CommandEvent::Step { count } => r == CommandPlan::Step { count },
            CommandEvent::Inspect { query } => match query {
                Some(_) => r matches CommandPlan::Reject { message } && message@
                    == "inspect query is not implemented yet"@,
                None => r == CommandPlan::Snapshot,
            },
            CommandEvent::SimulateInput { event } => r == CommandPlan::SimulateInput { event },
            _ => r matches CommandPlan::Reject { message } && message@ == "command is not implemented yet"@,
        },
{
    match command {
        CommandEvent::Step { count } => CommandPlan::Step { count },
        CommandEvent::Inspect { query } => match query {
            Some(_) => CommandPlan::Reject { message: "inspect query is not implemented yet".to_owned() },
            None => CommandPlan::Snapshot,
        },
        CommandEvent::SimulateInput { event } => CommandPlan::SimulateInput { event },
        _ => CommandPlan::Reject { message: "command is not implemented yet".to_owned() },
    }
}

impl CommandAckEvent {
    /// A successful acknowledgement without message.
    pub fn success() -> (r: Self)
        ensures
            r.command_id is None,
            r.status == AckStatus::Success,
            r.message is None,
    {
        CommandAckEvent { command_id: None, status: AckStatus::Success, message: None }
    }

    /// An error acknowledgement carrying `message`.
    pub fn error(message: String) -> (r: Self)
        ensures
            r.command_id is None,
            r.status == AckStatus::Error,
            r.message == Some(message),
    {
        CommandAckEvent { command_id: None, status: AckStatus::Error, message: Some(message) }
    }
}

// ---------------------------------------------------------------------
// Command-line invocations.
// ---------------------------------------------------------------------

/// A parsed command-line invocation.
#[derive(Debug)]
pub enum CliCommand<S> {
    /// Scaffold a new project directory.
    New { dir: String },
    /// Drive the engine for `max_ticks` ticks of `dt`.
    Run { root: String, dt: S, max_ticks: Option<u64> },
    /// Advance `count` ticks.
    Step { root: String, count: u32 },
    /// Dump a world snapshot.
    Inspect { root: String, query: Option<String> },
    /// Inject one raw input event, given as JSON text.
    Emit { root: String, event: String },
}

/// What a command-line invocation does.
#[derive(Debug)]
pub enum CliPlan<S> {
    /// Run `ticks` ticks of `dt` and write the domain events.
    Run { root: String, dt: S, ticks: u64 },
    /// Run `count` ticks of the default step and write the domain events
    /// and a snapshot taken at tick `count`.
    Step { root: String, count: u32 },
    /// Write a snapshot taken at tick 0.
    Inspect { root: String },
    /// Map and process one raw input event and write the domain events.
    Emit { root: String, event: String },
}

/// The plan for a command-line invocation: `run` needs `--max-ticks`,
/// inspect queries and project scaffolding are not supported.
pub fn plan_cli<S>(command: CliCommand<S>) -> (r: Result<CliPlan<S>, String>)
    ensures
        match command {
            CliCommand::New { .. } => r matches Err(m) && m@ == "command is not implemented yet"@,
            CliCommand::Run { root, dt, max_ticks } => match max_ticks {
                Some(t) => r == Ok::<CliPlan<S>, String>(CliPlan::Run { root, dt, ticks: t }),
                None => r matches Err(m) && m@ == "--max-ticks is required for v0 run"@,
            },
            CliCommand::Step { root, count } => r == Ok::<CliPlan<S>, String>(CliPlan::Step { root, count }),
            CliCommand::Inspect { root, query } => match query {
                Some(_) => r matches Err(m) && m@ == "inspect query is not implemented yet"@,
                None => r == Ok::<CliPlan<S>, String>(CliPlan::Inspect { root }),
            },
            CliCommand::Emit { root, event } => r == Ok::<CliPlan<S>, String>(CliPlan::Emit { root, event }),
        },
{
    match command {
        CliCommand::New { .. } => Err("command is not implemented yet".to_owned()),
        CliCommand::Run { root, dt, max_ticks } => match max_ticks {
            Some(t) => Ok(CliPlan::Run { root, dt, ticks: t }),
            None => Err("--max-ticks is required for v0 run".to_owned()),
        },
        CliCommand::Step { root, count } => Ok(CliPlan::Step { root, count }),
        CliCommand::Inspect { root, query } => match query {
            Some(_) => Err("inspect query is not implemented yet".to_owned()),
            None => Ok(CliPlan::Inspect { root }),
        },
        CliCommand::Emit { root, event } => Ok(CliPlan::Emit { root, event }),
    }
}

} // verus!
