//! Immutable server configuration: listen port, optional snapshot
//! location, and replication role and identity.

use vstd::prelude::*;

use crate::text::dec_chars;
use crate::text::str_eq;
use crate::text::usize_to_string;

verus! {

/// The whole configuration a running server is given at startup.
#[derive(Clone, Debug)]
pub struct Config {
    pub server: Server,
    pub replication: Replication,
    pub rdb: Option<RdbConfig>,
}

#[derive(Clone, Debug)]
pub struct Server {
    pub port: usize,
}

impl Default for Server {
    fn default() -> (r: Self)
        ensures
            r.port == 6379,
    {
        Server { port: 6379 }
    }
}

/// Replication identity: master attributes, and the upstream address when
/// this instance is a replica.
#[derive(Clone, Debug)]
pub struct Replication {
    pub master: ReplicationMaster,
    pub slave: Option<ReplicationSlave>,
}

impl Default for Replication {
    fn default() -> (r: Self)
        ensures
            r.master.id@ == default_master_id(),
            r.master.offset == 0,
            r.slave is None,
    {
        Replication { master: ReplicationMaster::default(), slave: None }
    }
}

impl Replication {
    /// This instance serves as master exactly when no upstream is set.
    pub fn is_master(&self) -> (r: bool)
        ensures
            r == (self.slave is None),
    {
        self.slave.is_none()
    }

    /// This instance serves as replica exactly when an upstream is set.
    pub fn is_slave(&self) -> (r: bool)
        ensures
            r == (self.slave is Some),
    {
        self.slave.is_some()
    }
}

/// The fixed 40-hex-character identity a fresh master reports.
pub open spec fn default_master_id() -> Seq<char> {
    "8371b4fb1155b71f4a04d3e1bc3e18c4a990aeeb"@
}

#[derive(Clone, Debug)]
pub struct ReplicationMaster {
    pub id: String,
    pub offset: usize,
}

impl Default for ReplicationMaster {
    fn default() -> (r: Self)
        ensures
            r.id@ == default_master_id(),
            r.offset == 0,
    {
        ReplicationMaster {
            id: String::from_str("8371b4fb1155b71f4a04d3e1bc3e18c4a990aeeb"),
            offset: 0,
        }
    }
}

/// The address of the master this instance replicates from.
#[derive(Clone, Debug)]
pub struct ReplicationSlave {
    pub master_address: String,
}

/// Where the snapshot file lives: a directory and a file name.
#[derive(Clone, Debug)]
pub struct RdbConfig {
    pub directory: String,
    pub filename: String,
}

impl RdbConfig {
    /// The full path of the snapshot file.
    pub fn path(&self) -> (r: String)
        ensures
            r@ == self.directory@ + seq!['/'] + self.filename@,
    {
        let mut p = self.directory.clone();
        p.append("/");
        p.append(self.filename.as_str());
        proof {
            reveal_strlit("/");
            assert("/"@ =~= seq!['/']);
            assert(p@ =~= self.directory@ + seq!['/'] + self.filename@);
        }
        p
    }
}

impl Default for Config {
    fn default() -> (r: Self)
        ensures
            r.server.port == 6379,
            r.replication.master.id@ == default_master_id(),
            r.replication.master.offset == 0,
            r.replication.slave is None,
            r.rdb is None,
    {
        Config { server: Server::default(), replication: Replication::default(), rdb: None }
    }
}

/// The printable value of a configuration name: `port`, `dir` and
/// `dbfilename` are recognized; anything else gives nothing, as does
/// asking for the snapshot location when none was set.
pub open spec fn config_value(c: Config, arg: Seq<char>) -> Option<Seq<char>> {
    if arg == "port"@ {
        Option::Some(dec_chars(c.server.port as nat))
    } else if arg == "dir"@ {
        match c.rdb {
            Option::Some(r) => Option::Some(r.directory@),
            Option::None => Option::None,
        }
    } else if arg == "dbfilename"@ {
        match c.rdb {
            Option::Some(r) => Option::Some(r.filename@),
            Option::None => Option::None,
        }
    } else {
        Option::None
    }
}

impl Config {
    /// The printable value of a configuration name, as `config_value`
    /// gives it.
    pub fn get(&self, arg: &str) -> (r: Option<String>)
        ensures
            (r is Some) <==> config_value(*self, arg@) is Some,
            r matches Some(s) ==> s@ == config_value(*self, arg@)->Some_0,
    {
        proof {
            reveal_strlit("port");
            reveal_strlit("dir");
            reveal_strlit("dbfilename");
            assert("port"@.len() == 4 && "dir"@.len() == 3 && "dbfilename"@.len() == 10);
        }
        if str_eq(arg, "port") {
            Some(usize_to_string(self.server.port))
        } else if str_eq(arg, "dir") {
            match &self.rdb {
                Some(c) => Some(c.directory.clone()),
                None => None,
            }
        } else if str_eq(arg, "dbfilename") {
            match &self.rdb {
                Some(c) => Some(c.filename.clone()),
                None => None,
            }
        } else {
            None
        }
    }
}

} // verus!
