//! The D-Bus messages the services receive, as plain values: which method a
//! message calls and the string arguments it carries.

use vstd::prelude::*;
use crate::error::{Error, ErrorKind};
use crate::text::{chars_of, text_eq};

verus! {

/// The type of a D-Bus message.
#[derive(Clone, Copy, Debug, PartialEq, Eq, Structural)]
pub enum MessageKind {
    MethodCall,
    MethodReturn,
    Error,
    Signal,
}

/// One argument of a message.
#[derive(Debug)]
pub enum Argument {
    Text(String),
    Number(u32),
    Other,
}

/// A received message: its type, interface and member (when present) and arguments.
#[derive(Debug)]
pub struct Message {
    pub kind: MessageKind,
    pub interface: Option<String>,
    pub member: Option<String>,
    pub arguments: Vec<Argument>,
}

pub enum SpecArgument {
    Text(Seq<char>),
    Number(u32),
    Other,
}

pub struct SpecMessage {
    pub kind: MessageKind,
    pub interface: Option<Seq<char>>,
    pub member: Option<Seq<char>>,
    pub arguments: Seq<SpecArgument>,
}

impl DeepView for Argument {
    type V = SpecArgument;

    open spec fn deep_view(&self) -> SpecArgument {
        match self {
            Argument::Text(s) => SpecArgument::Text(s@),
            Argument::Number(n) => SpecArgument::Number(*n),
            Argument::Other => SpecArgument::Other,
        }
    }
}

impl DeepView for Message {
    type V = SpecMessage;

    open spec fn deep_view(&self) -> SpecMessage {
        SpecMessage {
            kind: self.kind,
            interface: self.interface.deep_view(),
            member: self.member.deep_view(),
            arguments: self.arguments.deep_view(),
        }
    }
}

pub open spec fn has_nul(s: Seq<char>) -> bool {
    exists|i: int| 0 <= i < s.len() && s[i] == '\0'
}

fn contains_nul(s: &str) -> (r: bool)
    ensures
        r == has_nul(s@),
{
    let chars = chars_of(s);
    let mut i: usize = 0;
    while i < chars.len()
        invariant
            i <= chars.len(),
            chars@ == s@,
            forall|j: int| 0 <= j < i ==> chars@[j] != '\0',
        decreases chars.len() - i,
    {
        if chars[i] == '\0' {
            return true;
        }
        i = i + 1;
    }
    false
}

/// A method call of `method`, on `interface` or on no interface; names holding a NUL
/// character cannot be asked for and match nothing.
pub open spec fn spec_is_method(m: SpecMessage, interface: Seq<char>, method: Seq<char>) -> bool {
    &&& !has_nul(interface)
    &&& !has_nul(method)
    &&& m.kind == MessageKind::MethodCall
    &&& m.member == Some(method)
    &&& (m.interface is None || m.interface == Some(interface))
}

pub open spec fn text_argument(args: Seq<SpecArgument>, i: int) -> Option<Seq<char>> {
    if 0 <= i < args.len() {
        match args[i] {
            SpecArgument::Text(s) => Some(s),
            _ => None,
        }
    } else {
        None
    }
}

fn text_argument_at(arguments: &Vec<Argument>, i: usize) -> (r: Option<String>)
    ensures
        r.deep_view() == text_argument(arguments.deep_view(), i as int),
{
    if i < arguments.len() {
        match &arguments[i] {
            Argument::Text(s) => Some(s.clone()),
            _ => None,
        }
    } else {
        None
    }
}

impl Message {
    /// Whether the message calls `method` of `interface`.
    pub fn is_method(&self, interface: &str, method: &str) -> (r: bool)
        ensures
            r == spec_is_method(self.deep_view(), interface@, method@),
    {
        if contains_nul(interface) || contains_nul(method) {
            return false;
        }
        if self.kind != MessageKind::MethodCall {
            return false;
        }
        let member_matches = match &self.member {
            Some(member) => text_eq(member.as_str(), method),
            None => false,
        };
        if !member_matches {
            return false;
        }
        match &self.interface {
            Some(i) => text_eq(i.as_str(), interface),
            None => true,
        }
    }

    /// The first argument, which must be a string.
    pub fn string_arg(&self) -> (r: Result<String, Error>)
        ensures
            match text_argument(self.deep_view().arguments, 0) {
                Some(s) => r matches Ok(v) && v@ == s,
                None => r matches Err(e) && e.kind == ErrorKind::InvalidInput && e.message@
                    == "method requires one string argument"@,
            },
    {
        match text_argument_at(&self.arguments, 0) {
            Some(s) => Ok(s),
            None => Err(Error::new(ErrorKind::InvalidInput, "method requires one string argument")),
        }
    }

    /// The first two arguments, which must be strings.
    pub fn string_pair_args(&self) -> (r: Result<(String, String), Error>)
        ensures
            match (
                text_argument(self.deep_view().arguments, 0),
                text_argument(self.deep_view().arguments, 1),
            ) {
                (Some(a), Some(b)) => r matches Ok((x, y)) && x@ == a && y@ == b,
                _ => r matches Err(e) && e.kind == ErrorKind::InvalidInput && e.message@
                    == "method requires two string arguments"@,
            },
    {
        match (text_argument_at(&self.arguments, 0), text_argument_at(&self.arguments, 1)) {
            (Some(a), Some(b)) => Ok((a, b)),
            _ => Err(Error::new(ErrorKind::InvalidInput, "method requires two string arguments")),
        }
    }

    /// The first three arguments, which must be strings.
    pub fn string_triple_args(&self) -> (r: Result<(String, String, String), Error>)
        ensures
            match (
                text_argument(self.deep_view().arguments, 0),
                text_argument(self.deep_view().arguments, 1),
                text_argument(self.deep_view().arguments, 2),
            ) {
                (Some(a), Some(b), Some(c)) => r matches Ok((x, y, z)) && x@ == a && y@ == b && z@
                    == c,
                _ => r matches Err(e) && e.kind == ErrorKind::InvalidInput && e.message@
                    == "method requires three string arguments"@,
            },
    {
        match (
            text_argument_at(&self.arguments, 0),
            text_argument_at(&self.arguments, 1),
            text_argument_at(&self.arguments, 2),
        ) {
            (Some(a), Some(b), Some(c)) => Ok((a, b, c)),
            _ => Err(Error::new(ErrorKind::InvalidInput, "method requires three string arguments")),
        }
    }
}

} // verus!
