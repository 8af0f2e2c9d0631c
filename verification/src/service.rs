use vstd::prelude::*;

pub mod gossipsub;
pub mod lapp;
pub mod websocket;

verus! {

/// Address of an actor inside the server context.
pub enum Addr {
    Lapp(String),
}

impl Addr {
    /// The name of the lapp this address belongs to.
    pub open spec fn lapp_name_spec(&self) -> Seq<char> {
        match self {
            Addr::Lapp(name) => name@,
        }
    }

    pub fn as_lapp_name(&self) -> (name: &str)
        ensures
            name@ == self.lapp_name_spec(),
    {
        match self {
            Addr::Lapp(name) => name.as_str(),
        }
    }

    pub fn into_lapp_name(self) -> (name: String)
        ensures
            name@ == self.lapp_name_spec(),
    {
        match self {
            Addr::Lapp(value) => value,
        }
    }
}

/// An address as the name of its lapp.
impl From<Addr> for String {
    fn from(addr: Addr) -> (r: String) {
        match addr {
            Addr::Lapp(name) => name,
        }
    }
}

impl vstd::std_specs::convert::FromSpecImpl<Addr> for String {
    open spec fn obeys_from_spec() -> bool {
        true
    }

    open spec fn from_spec(v: Addr) -> String {
        match v {
            Addr::Lapp(name) => name,
        }
    }
}

} // verus!
