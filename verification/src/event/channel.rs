use vstd::prelude::*;

verus! {

/// Discriminator for which channel a message belongs to. Doubles as the
/// `channel` field every JSONL line carries on stdin / stdout.
#[derive(PartialEq, Eq, Structural, Debug, Hash)]
pub enum Channel {
    Diagnostic,
    Input,
    Command,
    Domain,
    Marker,
    Presentation,
    CommandAck,
    Snapshot,
}

impl Clone for Channel {
    fn clone(&self) -> (r: Self)
        ensures
            r == *self,
    {
        *self
    }
}

impl Copy for Channel {}

impl Channel {
    /// The channel's name on the wire (kebab case).
    pub fn wire_name(&self) -> (r: &'static str)
        ensures
            r@ == channel_wire_name(*self),
    {
        match self {
            Channel::Diagnostic => "diagnostic",
            Channel::Input => "input",
            Channel::Command => "command",
            Channel::Domain => "domain",
            Channel::Marker => "marker",
            Channel::Presentation => "presentation",
            Channel::CommandAck => "command-ack",
            Channel::Snapshot => "snapshot",
        }
    }
}

impl Channel {
    /// The channel whose wire name is `name`.
    pub fn from_wire_name(name: &str) -> (r: Option<Channel>)
        ensures
            match r {
                Some(c) => channel_wire_name(c) == name@,
                None => forall|c: Channel| channel_wire_name(c) != name@,
            },
    {
        let owned = name.to_owned();
        if owned == "diagnostic".to_owned() {
            Some(Channel::Diagnostic)
        } else if owned == "input".to_owned() {
            Some(Channel::Input)
        } else if owned == "command".to_owned() {
            Some(Channel::Command)
        } else if owned == "domain".to_owned() {
            Some(Channel::Domain)
        } else if owned == "marker".to_owned() {
            Some(Channel::Marker)
        } else if owned == "presentation".to_owned() {
            Some(Channel::Presentation)
        } else if owned == "command-ack".to_owned() {
            Some(Channel::CommandAck)
        } else if owned == "snapshot".to_owned() {
            Some(Channel::Snapshot)
        } else {
            proof {
                assert forall|c: Channel| channel_wire_name(c) != name@ by {
                    match c {
                        Channel::Diagnostic => {},
                        Channel::Input => {},
                        Channel::Command => {},
                        Channel::Domain => {},
                        Channel::Marker => {},
                        Channel::Presentation => {},
                        Channel::CommandAck => {},
                        Channel::Snapshot => {},
                    }
                }
            }
            None
        }
    }

    /// The channel's name as `Debug` shows it (the variant name).
    pub fn debug_name(&self) -> (r: &'static str)
        ensures
            r@ == channel_debug_name(*self),
    {
        match self {
            Channel::Diagnostic => "Diagnostic",
            Channel::Input => "Input",
            Channel::Command => "Command",
            Channel::Domain => "Domain",
            Channel::Marker => "Marker",
            Channel::Presentation => "Presentation",
            Channel::CommandAck => "CommandAck",
            Channel::Snapshot => "Snapshot",
        }
    }
}

/// Distinct channels have distinct wire names.
pub proof fn lemma_wire_name_injective(c: Channel, d: Channel)
    requires
        channel_wire_name(c) == channel_wire_name(d),
    ensures
        c == d,
{
    reveal_strlit("diagnostic");
    reveal_strlit("input");
    reveal_strlit("command");
    reveal_strlit("domain");
    reveal_strlit("marker");
    reveal_strlit("presentation");
    reveal_strlit("command-ack");
    reveal_strlit("snapshot");
    let a = channel_wire_name(c);
    let b = channel_wire_name(d);
    if c != d {
        assert(a.len() != b.len() || a[0] != b[0] || a[1] != b[1] || a[2] != b[2] || a[4] != b[4]);
    }
}

/// Variant name of each channel.
pub open spec fn channel_debug_name(c: Channel) -> Seq<char> {
    match c {
        Channel::Diagnostic => "Diagnostic"@,
        Channel::Input => "Input"@,
        Channel::Command => "Command"@,
        Channel::Domain => "Domain"@,
        Channel::Marker => "Marker"@,
        Channel::Presentation => "Presentation"@,
        Channel::CommandAck => "CommandAck"@,
        Channel::Snapshot => "Snapshot"@,
    }
}

/// Wire name of each channel.
pub open spec fn channel_wire_name(c: Channel) -> Seq<char> {
    match c {
        Channel::Diagnostic => "diagnostic"@,
        Channel::Input => "input"@,
        Channel::Command => "command"@,
        Channel::Domain => "domain"@,
        Channel::Marker => "marker"@,
        Channel::Presentation => "presentation"@,
        Channel::CommandAck => "command-ack"@,
        Channel::Snapshot => "snapshot"@,
    }
}

} // verus!
