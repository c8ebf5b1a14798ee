//! Command-line configuration of a core node.
//!
//! `--node-id ID`, `--addr HOST:PORT`, `--membership-addr HOST:PORT`,
//! `--join HOST:PORT` (repeatable), `--raft-peer ID=HOST:PORT`
//! (repeatable), `--wal PATH`, `--raft-log PATH`, and `--help` / `-h`.
//! Whether a value is a socket address is decided by the caller, which
//! passes one verdict per argument.

use crate::raft::runtime::{peers_view, PeerView, RaftPeer};
use crate::text::str_eq;
use vstd::prelude::*;
use vstd::string::*;

verus! {

/// A node's settings.
pub struct Config {
    pub node_id: String,
    pub addr: String,
    pub membership_addr: String,
    pub join_membership_addrs: Vec<String>,
    pub raft_peers: Vec<RaftPeer>,
    pub wal_path: String,
    pub raft_log_path: Option<String>,
}

pub ghost struct ConfigView {
    pub node_id: Seq<char>,
    pub addr: Seq<char>,
    pub membership_addr: Seq<char>,
    pub join_membership_addrs: Seq<Seq<char>>,
    pub raft_peers: Seq<PeerView>,
    pub wal_path: Seq<char>,
    pub raft_log_path: Option<Seq<char>>,
}

/// The values of a sequence of strings.
pub open spec fn texts_view(v: Seq<String>) -> Seq<Seq<char>> {
    v.map_values(|s: String| s@)
}

/// The value of an optional string.
pub open spec fn opt_text_view(o: Option<String>) -> Option<Seq<char>> {
    match o {
        Some(s) => Some(s@),
        None => None,
    }
}

impl View for Config {
    type V = ConfigView;

    open spec fn view(&self) -> ConfigView {
        ConfigView {
            node_id: self.node_id@,
            addr: self.addr@,
            membership_addr: self.membership_addr@,
            join_membership_addrs: texts_view(self.join_membership_addrs@),
            raft_peers: peers_view(self.raft_peers@),
            wal_path: self.wal_path@,
            raft_log_path: opt_text_view(self.raft_log_path),
        }
    }
}

/// The flags that take a value.
#[derive(Debug, Clone, Copy, PartialEq, Eq, Structural)]
pub enum Flag {
    NodeId,
    Addr,
    MembershipAddr,
    Join,
    RaftPeer,
    Wal,
    RaftLog,
}

/// Why the arguments were refused.
#[derive(Debug, Clone, Copy, PartialEq, Eq, Structural)]
pub enum ConfigError {
    /// The flag is the last argument.
    MissingValue(Flag),
    /// The flag's value is not what it must be.
    InvalidValue(Flag),
    /// An argument that is no flag.
    UnknownArgument,
}

/// What the arguments ask for.
pub enum Command {
    Run(Config),
    Help,
}

/// The text of a flag on the command line.
pub open spec fn flag_text(f: Flag) -> Seq<char> {
    match f {
        Flag::NodeId => "--node-id"@,
        Flag::Addr => "--addr"@,
        Flag::MembershipAddr => "--membership-addr"@,
        Flag::Join => "--join"@,
        Flag::RaftPeer => "--raft-peer"@,
        Flag::Wal => "--wal"@,
        Flag::RaftLog => "--raft-log"@,
    }
}

/// The description of an error.
pub open spec fn config_error_text(e: ConfigError) -> Seq<char> {
    match e {
        ConfigError::MissingValue(f) => "missing "@ + flag_text(f) + " value"@,
        ConfigError::InvalidValue(f) => "invalid "@ + flag_text(f) + " value"@,
        ConfigError::UnknownArgument => "unknown argument"@,
    }
}

fn flag_str(f: Flag) -> (r: &'static str)
    ensures
        r@ == flag_text(f),
{
    match f {
        Flag::NodeId => "--node-id",
        Flag::Addr => "--addr",
        Flag::MembershipAddr => "--membership-addr",
        Flag::Join => "--join",
        Flag::RaftPeer => "--raft-peer",
        Flag::Wal => "--wal",
        Flag::RaftLog => "--raft-log",
    }
}

impl ConfigError {
    /// A short description of the error.
    pub fn message(&self) -> (m: String)
        ensures
            m@ == config_error_text(*self),
    {
        match self {
            ConfigError::MissingValue(f) => {
                let mut m = "missing ".to_string();
                crate::text::push_str(&mut m, flag_str(*f));
                crate::text::push_str(&mut m, " value");
                m
            },
            ConfigError::InvalidValue(f) => {
                let mut m = "invalid ".to_string();
                crate::text::push_str(&mut m, flag_str(*f));
                crate::text::push_str(&mut m, " value");
                m
            },
            ConfigError::UnknownArgument => "unknown argument".to_string(),
        }
    }
}

/// The settings used where no flag gives another value.
pub open spec fn default_config() -> ConfigView {
    ConfigView {
        node_id: "node-1"@,
        addr: "127.0.0.1:7000"@,
        membership_addr: "127.0.0.1:7100"@,
        join_membership_addrs: Seq::empty(),
        raft_peers: Seq::empty(),
        wal_path: "data/node-1.log"@,
        raft_log_path: None,
    }
}

/// The index of the first `=` in `s`, if any.
pub open spec fn first_eq(s: Seq<char>) -> Option<nat>
    decreases s.len(),
{
    if s.len() == 0 {
        None
    } else if s[0] == '=' {
        Some(0)
    } else {
        match first_eq(s.drop_first()) {
            Some(i) => Some(i + 1),
            None => None,
        }
    }
}

/// A `--raft-peer` value split at its first `=` into a non-empty id and an
/// address.
pub open spec fn split_peer(s: Seq<char>) -> Option<PeerView> {
    match first_eq(s) {
        Some(i) => if i == 0 {
            None
        } else {
            Some(PeerView { id: s.take(i as int), addr: s.skip(i + 1 as int) })
        },
        None => None,
    }
}

/// What the arguments from index `i` on make of the settings `c`:
/// `Ok(None)` asks for help. `addr_ok[k]` says whether argument `k` is a
/// socket address, `peer_ok[k]` whether what follows its first `=` is.
pub open spec fn parse_from(
    args: Seq<Seq<char>>,
    addr_ok: Seq<bool>,
    peer_ok: Seq<bool>,
    i: nat,
    c: ConfigView,
) -> Result<Option<ConfigView>, ConfigError>
    decreases args.len() - i,
{
    if i >= args.len() {
        Ok(Some(c))
    } else {
        let a = args[i as int];
        let has_value = i + 1 < args.len();
        let v = args[i + 1 as int];
        if a == "--help"@ || a == "-h"@ {
            Ok(None)
        } else if a == "--node-id"@ {
            if !has_value {
                Err(ConfigError::MissingValue(Flag::NodeId))
            } else {
                parse_from(args, addr_ok, peer_ok, i + 2, ConfigView { node_id: v, ..c })
            }
        } else if a == "--addr"@ {
            if !has_value {
                Err(ConfigError::MissingValue(Flag::Addr))
            } else if !addr_ok[i + 1 as int] {
                Err(ConfigError::InvalidValue(Flag::Addr))
            } else {
                parse_from(args, addr_ok, peer_ok, i + 2, ConfigView { addr: v, ..c })
            }
        } else if a == "--membership-addr"@ {
            if !has_value {
                Err(ConfigError::MissingValue(Flag::MembershipAddr))
            } else if !addr_ok[i + 1 as int] {
                Err(ConfigError::InvalidValue(Flag::MembershipAddr))
            } else {
                parse_from(args, addr_ok, peer_ok, i + 2, ConfigView { membership_addr: v, ..c })
            }
        } else if a == "--join"@ {
            if !has_value {
                Err(ConfigError::MissingValue(Flag::Join))
            } else if !addr_ok[i + 1 as int] {
                Err(ConfigError::InvalidValue(Flag::Join))
            } else {
                parse_from(
                    args,
                    addr_ok,
                    peer_ok,
                    i + 2,
                    ConfigView { join_membership_addrs: c.join_membership_addrs.push(v), ..c },
                )
            }
        } else if a == "--raft-peer"@ {
            if !has_value {
                Err(ConfigError::MissingValue(Flag::RaftPeer))
            } else {
                match split_peer(v) {
                    Some(p) => if !peer_ok[i + 1 as int] {
                        Err(ConfigError::InvalidValue(Flag::RaftPeer))
                    } else {
                        parse_from(args, addr_ok, peer_ok, i + 2, ConfigView { raft_peers: c.raft_peers.push(p), ..c })
                    },
                    None => Err(ConfigError::InvalidValue(Flag::RaftPeer)),
                }
            }
        } else if a == "--wal"@ {
            if !has_value {
                Err(ConfigError::MissingValue(Flag::Wal))
            } else {
                parse_from(args, addr_ok, peer_ok, i + 2, ConfigView { wal_path: v, ..c })
            }
        } else if a == "--raft-log"@ {
            if !has_value {
                Err(ConfigError::MissingValue(Flag::RaftLog))
            } else {
                parse_from(args, addr_ok, peer_ok, i + 2, ConfigView { raft_log_path: Some(v), ..c })
            }
        } else {
            Err(ConfigError::UnknownArgument)
        }
    }
}


/// The values that follow `flag` in `args`, read as flag/value pairs from
/// index `i`, in argument order.
pub open spec fn flag_values(args: Seq<Seq<char>>, flag: Seq<char>, i: nat) -> Seq<Seq<char>>
    decreases args.len() - i,
{
    if i + 1 >= args.len() {
        Seq::empty()
    } else {
        (if args[i as int] == flag { seq![args[i + 1 as int]] } else { Seq::empty() }) + flag_values(args, flag, i + 2)
    }
}

/// The peers named by `--raft-peer` values.
pub open spec fn peers_named(values: Seq<Seq<char>>) -> Seq<PeerView> {
    Seq::new(values.len(), |k: int| split_peer(values[k])->Some_0)
}

/// The flags are distinct texts.
proof fn lemma_flags_distinct()
    ensures
        "--help"@ != "-h"@,
        "--help"@ != "--node-id"@,
        "--help"@ != "--addr"@,
        "--help"@ != "--membership-addr"@,
        "--help"@ != "--join"@,
        "--help"@ != "--raft-peer"@,
        "--help"@ != "--wal"@,
        "--help"@ != "--raft-log"@,
        "-h"@ != "--node-id"@,
        "-h"@ != "--addr"@,
        "-h"@ != "--membership-addr"@,
        "-h"@ != "--join"@,
        "-h"@ != "--raft-peer"@,
        "-h"@ != "--wal"@,
        "-h"@ != "--raft-log"@,
        "--node-id"@ != "--addr"@,
        "--node-id"@ != "--membership-addr"@,
        "--node-id"@ != "--join"@,
        "--node-id"@ != "--raft-peer"@,
        "--node-id"@ != "--wal"@,
        "--node-id"@ != "--raft-log"@,
        "--addr"@ != "--membership-addr"@,
        "--addr"@ != "--join"@,
        "--addr"@ != "--raft-peer"@,
        "--addr"@ != "--wal"@,
        "--addr"@ != "--raft-log"@,
        "--membership-addr"@ != "--join"@,
        "--membership-addr"@ != "--raft-peer"@,
        "--membership-addr"@ != "--wal"@,
        "--membership-addr"@ != "--raft-log"@,
        "--join"@ != "--raft-peer"@,
        "--join"@ != "--wal"@,
        "--join"@ != "--raft-log"@,
        "--raft-peer"@ != "--wal"@,
        "--raft-peer"@ != "--raft-log"@,
        "--wal"@ != "--raft-log"@,
{
    reveal_strlit("--help");
    reveal_strlit("-h");
    reveal_strlit("--node-id");
    reveal_strlit("--addr");
    reveal_strlit("--membership-addr");
    reveal_strlit("--join");
    reveal_strlit("--raft-peer");
    reveal_strlit("--wal");
    reveal_strlit("--raft-log");
    assert("--help"@.len() == 6);
    assert("-h"@.len() == 2);
    assert("--node-id"@.len() == 9);
    assert("--addr"@.len() == 6);
    assert("--membership-addr"@.len() == 17);
    assert("--join"@.len() == 6);
    assert("--raft-peer"@.len() == 11);
    assert("--wal"@.len() == 5);
    assert("--raft-log"@.len() == 10);
    assert("--help"@[2] == 'h');
    assert("--addr"@[2] == 'a');
    assert("--join"@[2] == 'j');
}

/// Repeated flags accumulate: when the arguments from index `i` parse, the
/// peers are those already known followed by one per `--raft-peer` value,
/// split at its first `=`, in argument order; likewise the addresses to join
/// are those already known followed by every `--join` value in order.
pub proof fn lemma_repeated_flags_accumulate(
    args: Seq<Seq<char>>,
    addr_ok: Seq<bool>,
    peer_ok: Seq<bool>,
    i: nat,
    c: ConfigView,
)
    requires
        parse_from(args, addr_ok, peer_ok, i, c) matches Ok(Some(_)),
    ensures
        parse_from(args, addr_ok, peer_ok, i, c)->Ok_0->Some_0.raft_peers == c.raft_peers + peers_named(
            flag_values(args, "--raft-peer"@, i),
        ),
        parse_from(args, addr_ok, peer_ok, i, c)->Ok_0->Some_0.join_membership_addrs == c.join_membership_addrs
            + flag_values(args, "--join"@, i),
    decreases args.len() - i,
{
    lemma_flags_distinct();
    if i >= args.len() {
        assert(c.raft_peers + peers_named(Seq::empty()) =~= c.raft_peers);
        assert(c.join_membership_addrs + Seq::<Seq<char>>::empty() =~= c.join_membership_addrs);
    } else {
        let a = args[i as int];
        let v = args[i + 1 as int];
        let next = (i + 2) as nat;
        let rp = flag_values(args, "--raft-peer"@, next);
        let rj = flag_values(args, "--join"@, next);
        assert(i + 1 < args.len());
        if a == "--raft-peer"@ {
            let p = split_peer(v)->Some_0;
            let c2 = ConfigView { raft_peers: c.raft_peers.push(p), ..c };
            lemma_repeated_flags_accumulate(args, addr_ok, peer_ok, next, c2);
            assert(flag_values(args, "--raft-peer"@, i) =~= seq![v] + rp);
            assert(c.raft_peers.push(p) + peers_named(rp) =~= c.raft_peers + peers_named(seq![v] + rp));
            assert(a != "--join"@);
            assert(flag_values(args, "--join"@, i) =~= rj);
        } else if a == "--join"@ {
            let c2 = ConfigView { join_membership_addrs: c.join_membership_addrs.push(v), ..c };
            lemma_repeated_flags_accumulate(args, addr_ok, peer_ok, next, c2);
            assert(flag_values(args, "--join"@, i) =~= seq![v] + rj);
            assert(c.join_membership_addrs.push(v) + rj =~= c.join_membership_addrs + (seq![v] + rj));
            assert(a != "--raft-peer"@);
            assert(flag_values(args, "--raft-peer"@, i) =~= rp);
        } else {
            let c2 = if a == "--node-id"@ {
                ConfigView { node_id: v, ..c }
            } else if a == "--addr"@ {
                ConfigView { addr: v, ..c }
            } else if a == "--membership-addr"@ {
                ConfigView { membership_addr: v, ..c }
            } else if a == "--wal"@ {
                ConfigView { wal_path: v, ..c }
            } else {
                ConfigView { raft_log_path: Some(v), ..c }
            };
            lemma_repeated_flags_accumulate(args, addr_ok, peer_ok, next, c2);
            assert(flag_values(args, "--raft-peer"@, i) =~= rp);
            assert(flag_values(args, "--join"@, i) =~= rj);
        }
    }
}

/// The value of a parse result.
pub open spec fn command_view(r: Result<Command, ConfigError>) -> Result<Option<ConfigView>, ConfigError> {
    match r {
        Ok(Command::Run(c)) => Ok(Some(c@)),
        Ok(Command::Help) => Ok(None),
        Err(e) => Err(e),
    }
}

/// Splits a `--raft-peer` value (see `split_peer`).
pub fn parse_raft_peer(value: &str) -> (r: Option<RaftPeer>)
    ensures
        match split_peer(value@) {
            Some(p) => r matches Some(x) && x@ == p,
            None => r is None,
        },
{
    let n = value.unicode_len();
    let mut i: usize = 0;
    while i < n && value.get_char(i) != '='
        invariant
            n == value@.len(),
            i <= n,
            forall|k: int| 0 <= k < i ==> value@[k] != '=',
        decreases n - i,
    {
        i = i + 1;
    }
    proof { lemma_first_eq(value@, i as nat); }
    if i == n || i == 0 {
        return None;
    }
    let id = value.substring_char(0, i).to_string();
    let addr = value.substring_char(i + 1, n).to_string();
    Some(RaftPeer { id, addr })
}

/// `first_eq` finds the first `=`.
proof fn lemma_first_eq(s: Seq<char>, i: nat)
    requires
        i <= s.len(),
        forall|k: int| 0 <= k < i ==> s[k] != '=',
        i < s.len() ==> s[i as int] == '=',
    ensures
        i < s.len() ==> first_eq(s) == Some(i),
        i == s.len() ==> first_eq(s) is None,
    decreases i,
{
    if s.len() > 0 && i > 0 {
        lemma_first_eq(s.drop_first(), (i - 1) as nat);
    }
}

impl Config {
    /// Parses the arguments after the program name. `addr_ok[k]` says
    /// whether argument `k` is a socket address and `peer_ok[k]` whether
    /// what follows its first `=` is; each flag's check happens in argument
    /// order, as `parse_from` describes.
    pub fn parse(args: &[String], addr_ok: &[bool], peer_ok: &[bool]) -> (r: Result<Command, ConfigError>)
        requires
            addr_ok@.len() == args@.len(),
            peer_ok@.len() == args@.len(),
        ensures
            command_view(r) == parse_from(texts_view(args@), addr_ok@, peer_ok@, 0, default_config()),
    {
        let ghost av = texts_view(args@);
        let mut c = Config {
            node_id: "node-1".to_string(),
            addr: "127.0.0.1:7000".to_string(),
            membership_addr: "127.0.0.1:7100".to_string(),
            join_membership_addrs: Vec::new(),
            raft_peers: Vec::new(),
            wal_path: "data/node-1.log".to_string(),
            raft_log_path: None,
        };
        assert(texts_view(c.join_membership_addrs@) =~= Seq::<Seq<char>>::empty());
        assert(peers_view(c.raft_peers@) =~= Seq::<PeerView>::empty());
        assert(c@ == default_config());
        let mut i: usize = 0;
        while i < args.len()
            invariant
                av == texts_view(args@),
                addr_ok@.len() == args@.len(),
                peer_ok@.len() == args@.len(),
                i <= args@.len(),
                parse_from(av, addr_ok@, peer_ok@, i as nat, c@) == parse_from(
                    av,
                    addr_ok@,
                    peer_ok@,
                    0,
                    default_config(),
                ),
            decreases args@.len() - i,
        {
            let a = args[i].as_str();
            let has_value = i + 1 < args.len();
            assert(a@ == av[i as int]);
            if str_eq(a, "--help") || str_eq(a, "-h") {
                return Ok(Command::Help);
            }
            if !has_value {
                if str_eq(a, "--node-id") {
                    return Err(ConfigError::MissingValue(Flag::NodeId));
                } else if str_eq(a, "--addr") {
                    return Err(ConfigError::MissingValue(Flag::Addr));
                } else if str_eq(a, "--membership-addr") {
                    return Err(ConfigError::MissingValue(Flag::MembershipAddr));
                } else if str_eq(a, "--join") {
                    return Err(ConfigError::MissingValue(Flag::Join));
                } else if str_eq(a, "--raft-peer") {
                    return Err(ConfigError::MissingValue(Flag::RaftPeer));
                } else if str_eq(a, "--wal") {
                    return Err(ConfigError::MissingValue(Flag::Wal));
                } else if str_eq(a, "--raft-log") {
                    return Err(ConfigError::MissingValue(Flag::RaftLog));
                } else {
                    return Err(ConfigError::UnknownArgument);
                }
            }
            let v = &args[i + 1];
            assert(v@ == av[i + 1]);
            let ok = addr_ok[i + 1];
            if str_eq(a, "--node-id") {
                c.node_id = v.clone();
            } else if str_eq(a, "--addr") {
                if !ok {
                    return Err(ConfigError::InvalidValue(Flag::Addr));
                }
                c.addr = v.clone();
            } else if str_eq(a, "--membership-addr") {
                if !ok {
                    return Err(ConfigError::InvalidValue(Flag::MembershipAddr));
                }
                c.membership_addr = v.clone();
            } else if str_eq(a, "--join") {
                if !ok {
                    return Err(ConfigError::InvalidValue(Flag::Join));
                }
                let ghost before = c@;
                c.join_membership_addrs.push(v.clone());
                assert(texts_view(c.join_membership_addrs@) =~= before.join_membership_addrs.push(v@));
            } else if str_eq(a, "--raft-peer") {
                let peer = match parse_raft_peer(v.as_str()) {
                    Some(p) => p,
                    None => return Err(ConfigError::InvalidValue(Flag::RaftPeer)),
                };
                if !peer_ok[i + 1] {
                    return Err(ConfigError::InvalidValue(Flag::RaftPeer));
                }
                let ghost before = c@;
                let ghost pv = peer@;
                c.raft_peers.push(peer);
                assert(peers_view(c.raft_peers@) =~= before.raft_peers.push(pv));
            } else if str_eq(a, "--wal") {
                c.wal_path = v.clone();
            } else if str_eq(a, "--raft-log") {
                c.raft_log_path = Some(v.clone());
            } else {
                return Err(ConfigError::UnknownArgument);
            }
            i = i + 2;
        }
        Ok(Command::Run(c))
    }
}

} // verus!
