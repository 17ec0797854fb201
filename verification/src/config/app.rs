use vstd::prelude::*;

use crate::errors::ConfigError;

verus! {

/// An IPv4 address as four plain octets.
#[derive(Clone, Copy, PartialEq, Eq, Structural, Debug)]
pub struct Ipv4 {
    pub octet0: u8,
    pub octet1: u8,
    pub octet2: u8,
    pub octet3: u8,
}

/// The socket section of the application configuration.
pub struct SocketConfig {
    default_port: u16,
}

impl SocketConfig {
    /// The port a connection uses when none is named.
    pub closed spec fn port(self) -> u16 {
        self.default_port
    }

    pub fn new(default_port: u16) -> (r: SocketConfig)
        ensures
            r.port() == default_port,
    {
        SocketConfig { default_port }
    }

    pub fn get_port(&self) -> (r: u16)
        ensures
            r == self.port(),
    {
        self.default_port
    }
}

impl Default for SocketConfig {
    /// The stock socket configuration: port 8000.
    fn default() -> (r: SocketConfig)
        ensures
            r.port() == 8000,
    {
        SocketConfig { default_port: 8000 }
    }
}

/// One named connection of the configuration.
pub struct Connection {
    pub name: String,
    pub addr: Ipv4,
}

/// The persisted application configuration: a table of named device
/// addresses and the socket settings.  The table holds each name at most
/// once.
pub struct Config {
    connections: Vec<Connection>,
    socket: SocketConfig,
}

impl Config {
    /// The connection table, in insertion order.
    pub closed spec fn entries(self) -> Seq<Connection> {
        self.connections@
    }

    /// The configured default port.
    pub closed spec fn port(self) -> u16 {
        self.socket.port()
    }

    /// Table invariant: connection names are unique.
    pub open spec fn wf(self) -> bool {
        forall|i: int, j: int|
            0 <= i < j < self.entries().len() ==> (#[trigger] self.entries()[i]).name@
                != (#[trigger] self.entries()[j]).name@
    }

    /// An empty table with the given default port.
    pub fn new(default_port: u16) -> (r: Config)
        ensures
            r.wf(),
            r.entries().len() == 0,
            r.port() == default_port,
    {
        Config { connections: Vec::new(), socket: SocketConfig::new(default_port) }
    }

    pub fn get_port(&self) -> (r: u16)
        ensures
            r == self.port(),
    {
        self.socket.get_port()
    }

    /// The number of connections in the table.
    pub fn connection_count(&self) -> (r: usize)
        ensures
            r == self.entries().len(),
    {
        self.connections.len()
    }

    /// The connection at position `i` of the table.
    pub fn connection_at(&self, i: usize) -> (r: &Connection)
        requires
            i < self.entries().len(),
        ensures
            *r == self.entries()[i as int],
    {
        &self.connections[i]
    }

    /// Looks a name up in the table.
    pub fn get(&self, name: &str) -> (r: Option<Ipv4>)
        requires
            self.wf(),
        ensures
            match r {
                Some(a) => exists|i: int|
                    0 <= i < self.entries().len() && (#[trigger] self.entries()[i]).name@ == name@
                        && self.entries()[i].addr == a,
                None => forall|i: int|
                    0 <= i < self.entries().len() ==> (#[trigger] self.entries()[i]).name@
                        != name@,
            },
    {
        let owned = name.to_owned();
        let mut i: usize = 0;
        while i < self.connections.len()
            invariant
                0 <= i <= self.entries().len(),
                owned@ == name@,
                forall|l: int| 0 <= l < i ==> (#[trigger] self.entries()[l]).name@ != name@,
            decreases self.entries().len() - i,
        {
            if self.connections[i].name == owned {
                return Some(self.connections[i].addr);
            }
            i = i + 1;
        }
        None
    }

    /// The address the attach command should connect to: an address
    /// configured under `name` wins; an unknown name falls back to
    /// whatever the caller could parse out of it.
    pub fn attach_target(&self, name: &str, parsed: Option<Ipv4>) -> (r: Option<Ipv4>)
        requires
            self.wf(),
        ensures
            match r {
                Some(a) => (exists|i: int|
                    0 <= i < self.entries().len() && (#[trigger] self.entries()[i]).name@ == name@
                        && self.entries()[i].addr == a) || ((forall|i: int|
                    0 <= i < self.entries().len() ==> (#[trigger] self.entries()[i]).name@
                        != name@) && parsed == Some(a)),
                None => (forall|i: int|
                    0 <= i < self.entries().len() ==> (#[trigger] self.entries()[i]).name@
                        != name@) && parsed is None,
            },
    {
        match self.get(name) {
            Some(a) => Some(a),
            None => parsed,
        }
    }

    /// Adds a connection, or updates the address of an existing one.  An
    /// empty name is rejected.  Returns whether an existing entry was
    /// updated.
    pub fn add(&mut self, name: &str, addr: Ipv4) -> (r: Result<bool, ConfigError>)
        requires
            old(self).wf(),
        ensures
            final(self).wf(),
            final(self).port() == old(self).port(),
            match r {
                Err(ConfigError::EmptyName) => name@.len() == 0 && final(self).entries() == old(
                    self,
                ).entries(),
                Ok(updated) => name@.len() > 0 && if updated {
                    exists|i: int|
                        {
                            &&& 0 <= i < old(self).entries().len()
                            &&& (#[trigger] old(self).entries()[i]).name@ == name@
                            &&& final(self).entries().len() == old(self).entries().len()
                            &&& final(self).entries()[i].name@ == name@
                            &&& final(self).entries()[i].addr == addr
                            &&& forall|l: int|
                                0 <= l < old(self).entries().len() && l != i
                                    ==> (#[trigger] final(self).entries()[l]) == old(
                                    self,
                                ).entries()[l]
                        }
                } else {
                    (forall|i: int|
                        0 <= i < old(self).entries().len() ==> (#[trigger] old(
                            self,
                        ).entries()[i]).name@ != name@) && (exists|c: Connection|
                        c.name@ == name@ && c.addr == addr && final(self).entries() =~= old(
                            self,
                        ).entries().push(c))
                },
            },
    {
        let owned = name.to_owned();
        if owned.as_str().is_empty() {
            return Err(ConfigError::EmptyName);
        }
        let mut i: usize = 0;
        while i < self.connections.len()
            invariant
                0 <= i <= self.entries().len(),
                owned@ == name@,
                name@.len() > 0,
                self == old(self),
                old(self).wf(),
                forall|l: int| 0 <= l < i ==> (#[trigger] self.entries()[l]).name@ != name@,
            decreases self.entries().len() - i,
        {
            if self.connections[i].name == owned {
                let kept = self.connections[i].name.clone();
                proof {
                    assert(kept@ == old(self).entries()[i as int].name@);
                }
                self.connections.set(i, Connection { name: kept, addr });
                proof {
                    assert forall|a: int, b: int|
                        0 <= a < b < self.entries().len() implies (#[trigger] self.entries()[
                        a]).name@ != (#[trigger] self.entries()[b]).name@ by {
                        assert(old(self).entries()[a].name@ != old(self).entries()[b].name@);
                    }
                }
                return Ok(true);
            }
            i = i + 1;
        }
        self.connections.push(Connection { name: owned, addr });
        proof {
            assert forall|a: int, b: int|
                0 <= a < b < self.entries().len() implies (#[trigger] self.entries()[a]).name@
                != (#[trigger] self.entries()[b]).name@ by {
                if b < self.entries().len() - 1 {
                    assert(old(self).entries()[a].name@ != old(self).entries()[b].name@);
                } else {
                    assert(old(self).entries()[a].name@ != name@);
                }
            }
        }
        Ok(false)
    }

    /// Removes the connection with the given name, if it is in the table.
    /// Returns whether anything was removed.
    pub fn remove(&mut self, name: &str) -> (r: bool)
        requires
            old(self).wf(),
        ensures
            final(self).wf(),
            final(self).port() == old(self).port(),
            if r {
                exists|i: int|
                    0 <= i < old(self).entries().len() && (#[trigger] old(self).entries()[
                    i]).name@ == name@ && final(self).entries() =~= old(self).entries().remove(i)
            } else {
                (forall|i: int|
                    0 <= i < old(self).entries().len() ==> (#[trigger] old(self).entries()[
                    i]).name@ != name@) && final(self).entries() == old(self).entries()
            },
    {
        let owned = name.to_owned();
        let mut i: usize = 0;
        while i < self.connections.len()
            invariant
                0 <= i <= self.entries().len(),
                owned@ == name@,
                self == old(self),
                old(self).wf(),
                forall|l: int| 0 <= l < i ==> (#[trigger] self.entries()[l]).name@ != name@,
            decreases self.entries().len() - i,
        {
            if self.connections[i].name == owned {
                self.connections.remove(i);
                proof {
                    assert forall|a: int, b: int|
                        0 <= a < b < self.entries().len() implies (#[trigger] self.entries()[
                        a]).name@ != (#[trigger] self.entries()[b]).name@ by {
                        let ii = i as int;
                        let a0 = if a < ii {
                            a
                        } else {
                            a + 1
                        };
                        let b0 = if b < ii {
                            b
                        } else {
                            b + 1
                        };
                        assert(old(self).entries()[a0].name@ != old(self).entries()[b0].name@);
                    }
                }
                return true;
            }
            i = i + 1;
        }
        false
    }
}

impl Default for Config {
    /// The stock configuration: no connections, port 8000.
    fn default() -> (r: Config)
        ensures
            r.wf(),
            r.entries().len() == 0,
            r.port() == 8000,
    {
        Config { connections: Vec::new(), socket: SocketConfig { default_port: 8000 } }
    }
}

} // verus!
