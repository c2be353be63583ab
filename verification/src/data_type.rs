//! Port types: an address family and a traffic direction, both with a wildcard.

use vstd::prelude::*;
use vstd::std_specs::cmp::PartialEqSpecImpl;

verus! {

/// Address family of a port. `Inet` matches any family.
#[derive(Debug, Copy, Clone, PartialEq, Eq, Structural)]
pub enum NFFamily {
    Inet,
    IPv4,
    IPv6,
}

/// Side of the machine a port sits on. `Either` matches any direction.
#[derive(Debug, Copy, Clone, PartialEq, Eq, Structural)]
pub enum NFDirection {
    Either,
    Incoming,
    Outgoing,
}

impl Default for NFFamily {
    fn default() -> (family: Self)
        ensures
            family == NFFamily::Inet,
    {
        NFFamily::Inet
    }
}

impl Default for NFDirection {
    fn default() -> (direction: Self)
        ensures
            direction == NFDirection::Either,
    {
        NFDirection::Either
    }
}

/// The type of a port.
#[derive(Debug, Copy, Clone)]
pub struct DataType {
    pub family: NFFamily,
    pub direction: NFDirection,
}

/// Text shown for a family.
pub open spec fn family_label(family: NFFamily) -> Seq<char> {
    match family {
        NFFamily::Inet => "inet"@,
        NFFamily::IPv4 => "ipv4"@,
        NFFamily::IPv6 => "ipv6"@,
    }
}

/// Text shown before the family for a direction; empty for the wildcard.
pub open spec fn direction_label(direction: NFDirection) -> Seq<char> {
    match direction {
        NFDirection::Either => ""@,
        NFDirection::Incoming => "Incoming "@,
        NFDirection::Outgoing => "Outgoing "@,
    }
}

impl DataType {
    pub fn new(family: NFFamily, direction: NFDirection) -> (typ: Self)
        ensures
            typ.family == family,
            typ.direction == direction,
    {
        DataType { family, direction }
    }

    /// Whether two port types may be connected: in each component a wildcard
    /// matches anything, and two fixed values match when they are the same.
    pub open spec fn compatible(self, other: DataType) -> bool {
        &&& (self.direction == NFDirection::Either || other.direction == NFDirection::Either
            || self.direction == other.direction)
        &&& (self.family == NFFamily::Inet || other.family == NFFamily::Inet || self.family
            == other.family)
    }

    /// The display name: the direction, if fixed, then the family.
    pub fn name(&self) -> (text: String)
        ensures
            text@ == direction_label(self.direction) + family_label(self.family),
    {
        let family = match self.family {
            NFFamily::Inet => "inet",
            NFFamily::IPv4 => "ipv4",
            NFFamily::IPv6 => "ipv6",
        };
        let direction = match self.direction {
            NFDirection::Either => "",
            NFDirection::Incoming => "Incoming ",
            NFDirection::Outgoing => "Outgoing ",
        };
        direction.to_string().concat(family)
    }
}

impl PartialEq for DataType {
    /// `==` on port types is compatibility, not identity.
    fn eq(&self, other: &Self) -> (equal: bool) {
        (self.direction == NFDirection::Either || other.direction == NFDirection::Either
            || self.direction == other.direction) && (self.family == NFFamily::Inet || other.family
            == NFFamily::Inet || self.family == other.family)
    }
}

impl PartialEqSpecImpl for DataType {
    open spec fn obeys_eq_spec() -> bool {
        true
    }

    open spec fn eq_spec(&self, other: &Self) -> bool {
        self.compatible(*other)
    }
}

} // verus!
