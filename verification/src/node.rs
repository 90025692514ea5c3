//! The node that a library runs on: its platform, its name, and how it is
//! entered into the store when the library is first opened.

use vstd::prelude::*;
use vstd::string::StringExecFns;

verus! {

#[derive(Clone, Copy, Debug, PartialEq, Eq, Structural)]
pub enum Platform {
    Unknown,
    Windows,
    MacOS,
    Linux,
    IOS,
    Android,
}

impl Platform {
    /// The number that stands for the platform in the store.
    pub open spec fn code(self) -> i32 {
        match self {
            Platform::Unknown => 0,
            Platform::Windows => 1,
            Platform::MacOS => 2,
            Platform::Linux => 3,
            Platform::IOS => 4,
            Platform::Android => 5,
        }
    }

    pub fn int_value(self) -> (n: i32)
        ensures
            n == self.code(),
    {
        match self {
            Platform::Unknown => 0,
            Platform::Windows => 1,
            Platform::MacOS => 2,
            Platform::Linux => 3,
            Platform::IOS => 4,
            Platform::Android => 5,
        }
    }

    /// The platform that `n` stands for, if it stands for one.
    pub fn from_int(n: i32) -> (p: Option<Platform>)
        ensures
            p.is_some() == (0 <= n <= 5),
            p matches Some(platform) ==> platform.code() == n,
    {
        match n {
            0 => Some(Platform::Unknown),
            1 => Some(Platform::Windows),
            2 => Some(Platform::MacOS),
            3 => Some(Platform::Linux),
            4 => Some(Platform::IOS),
            5 => Some(Platform::Android),
            _ => None,
        }
    }

    pub open spec fn of_os(os: Seq<char>) -> Platform {
        if os == "windows"@ {
            Platform::Windows
        } else if os == "macos"@ {
            Platform::MacOS
        } else if os == "linux"@ {
            Platform::Linux
        } else {
            Platform::Unknown
        }
    }

    /// The platform that the operating system of name `os` runs on.
    pub fn from_os(os: &str) -> (p: Platform)
        ensures
            p == Self::of_os(os@),
    {
        let os = String::from_str(os);
        if os == String::from_str("windows") {
            Platform::Windows
        } else if os == String::from_str("macos") {
            Platform::MacOS
        } else if os == String::from_str("linux") {
            Platform::Linux
        } else {
            Platform::Unknown
        }
    }
}

/// A node as the library knows it. The two times are seconds since the
/// beginning of 1970.
#[derive(Clone, Debug, PartialEq, Eq)]
pub struct LibraryNode {
    pub uuid: String,
    pub name: String,
    pub platform: Platform,
    pub tcp_address: String,
    pub last_seen: i64,
    pub last_synchronized: i64,
}

#[derive(Clone, Debug, PartialEq, Eq)]
pub enum NodeError {
    /// The store failed; the message is the store's.
    DatabaseError(String),
}

impl NodeError {
    pub fn message(&self) -> (m: String)
        ensures
            m@ == "Database error"@,
    {
        String::from_str("Database error")
    }
}

/// What asking the machine for its name gave.
#[derive(Clone, Debug, PartialEq, Eq)]
pub enum HostName {
    Name(String),
    /// The machine has a name that is not text.
    Unreadable,
    /// The machine gave no name.
    Unavailable,
}

/// The record of a node in the store.
#[derive(Clone, Debug, PartialEq, Eq)]
pub struct NodeData {
    pub id: i32,
    pub pub_id: Vec<u8>,
    pub name: String,
    pub platform: i32,
}

/// What is to be done next to enter this node into the store.
#[derive(Clone, Debug, PartialEq, Eq)]
pub enum NodeStep {
    /// The store has no record of the node: make one, and come back with it.
    Create { pub_id: Vec<u8>, name: String, platform: i32 },
    /// The store has the record: write the node's name and the record's key
    /// to the configuration.
    Configure { node_name: String, node_id: i32 },
}

pub open spec fn name_of(host: HostName) -> Seq<char> {
    match host {
        HostName::Name(name) => name@,
        HostName::Unreadable => Seq::empty(),
        HostName::Unavailable => "unknown"@,
    }
}

/// The name that a node goes by: the machine's name, nothing where that is
/// not text, `unknown` where the machine gave none.
pub fn node_name(host: HostName) -> (name: String)
    ensures
        name@ == name_of(host),
{
    match host {
        HostName::Name(name) => name,
        HostName::Unreadable => String::new(),
        HostName::Unavailable => String::from_str("unknown"),
    }
}

impl LibraryNode {
    /// The next step in entering this node into the store, given what the
    /// store holds under the node's public identifier.
    pub fn create(pub_id: Vec<u8>, host: HostName, os: &str, found: Option<NodeData>) -> (step: NodeStep)
        ensures
            match found {
                Some(data) => step matches NodeStep::Configure { node_name, node_id } && node_name@ == name_of(host)
                    && node_id == data.id,
                None => step matches NodeStep::Create { pub_id: p, name, platform } && p == pub_id && name@
                    == name_of(host) && platform == Platform::of_os(os@).code(),
            },
    {
        let name = node_name(host);
        match found {
            Some(data) => NodeStep::Configure { node_name: name, node_id: data.id },
            None => NodeStep::Create { pub_id, name, platform: Platform::from_os(os).int_value() },
        }
    }
}

} // verus!
