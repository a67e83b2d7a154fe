//! The configuration of a server: its port, its role in replication and its
//! named parameters, read from the command line.

use vstd::prelude::*;
use vstd::slice::slice_subrange;
use crate::constants::{DEFAULT_PORT, DOT};
use crate::decimal::{nat_digits, parse_nat, parse_unsigned, push_nat, read_nat, read_unsigned};
use crate::resp::{copy_bytes, push_bytes};
use crate::utils::{
    ascii, bytes_eq, find_byte, index_of_byte, is_word, lowercase, random_string, trim, trimmed,
};

verus! {

/// An IPv4 address as its four numbers.
pub type Ipv4 = (u8, u8, u8, u8);

/// The role of a server in replication. A replica knows where its master listens.
#[derive(Debug)]
pub enum Role {
    Master,
    Slave { master_host: Ipv4, master_port: u16 },
}

/// What a server knows of replication.
#[derive(Debug)]
pub struct ReplicaInfo {
    pub role: Role,
    pub master_replid: Vec<u8>,
    /// On a replica: the number of bytes of the master's command stream
    /// that it has taken in.
    pub master_repl_offset: u64,
}

/// The configuration of a server.
#[derive(Debug)]
pub struct Config {
    pub service_port: u16,
    pub replica_of: ReplicaInfo,
    /// Named parameters in the order in which they were first given; no
    /// name occurs twice.
    pub parameters: Vec<(Vec<u8>, Vec<u8>)>,
}

/// Why a command line is no configuration.
#[derive(Debug, Clone, Copy, PartialEq, Eq, Structural)]
pub enum ConfigError {
    MissingPort,
    InvalidPort,
    MissingReplicaOf,
    InvalidMasterHost,
    InvalidMasterPort,
    MissingDir,
    MissingDbFilename,
    UnknownArgument,
}

impl ConfigError {
    /// The text shown for this error.
    pub fn message(&self) -> (text: &'static str)
        ensures
            text@ == match *self {
                ConfigError::MissingPort => "usage --port <number:u16>"@,
                ConfigError::InvalidPort => "expected port to be valid u16 i.e in range 0-65535"@,
                ConfigError::MissingReplicaOf => "usage --replicaof <master_host:Ipv4Addr> <master_port:u16>"@,
                ConfigError::InvalidMasterHost => "expected master_host to be valid Ipv4Addr"@,
                ConfigError::InvalidMasterPort => "expected master_port to be valid u16 i.e in range 0-65535"@,
                ConfigError::MissingDir => "usage --dir <rdb_directory_path:String>"@,
                ConfigError::MissingDbFilename => "usage --dbfilename <rdb_filename:String>"@,
                ConfigError::UnknownArgument => "ERROR: unsported argument"@,
            },
    {
        match self {
            ConfigError::MissingPort => "usage --port <number:u16>",
            ConfigError::InvalidPort => "expected port to be valid u16 i.e in range 0-65535",
            ConfigError::MissingReplicaOf => "usage --replicaof <master_host:Ipv4Addr> <master_port:u16>",
            ConfigError::InvalidMasterHost => "expected master_host to be valid Ipv4Addr",
            ConfigError::InvalidMasterPort => "expected master_port to be valid u16 i.e in range 0-65535",
            ConfigError::MissingDir => "usage --dir <rdb_directory_path:String>",
            ConfigError::MissingDbFilename => "usage --dbfilename <rdb_filename:String>",
            ConfigError::UnknownArgument => "ERROR: unsported argument",
        }
    }
}

/// The mathematical model of named parameters.
pub type ParamsModel = Seq<(Seq<u8>, Seq<u8>)>;

/// The models of named parameters.
pub open spec fn params_view(params: Seq<(Vec<u8>, Vec<u8>)>) -> ParamsModel {
    Seq::new(params.len(), |i: int| (params[i].0@, params[i].1@))
}

/// The parameter `name` stands at index `i`.
pub open spec fn param_at(params: ParamsModel, name: Seq<u8>, i: int) -> bool {
    0 <= i < params.len() && params[i].0 == name && forall|j: int|
        0 <= j < i ==> params[j].0 != name
}

/// The value of the parameter `name`, if it is set.
pub open spec fn param_value(params: ParamsModel, name: Seq<u8>) -> Option<Seq<u8>> {
    if exists|i: int| param_at(params, name, i) {
        Some(params[choose|i: int| param_at(params, name, i)].1)
    } else {
        None
    }
}

/// The parameters after `name` is set to `value`: in place where it was
/// set before, at the end where it is new.
pub open spec fn param_set(params: ParamsModel, name: Seq<u8>, value: Seq<u8>) -> ParamsModel {
    if exists|i: int| param_at(params, name, i) {
        params.update(choose|i: int| param_at(params, name, i), (name, value))
    } else {
        params.push((name, value))
    }
}

/// Where the pair named `name` stands in `list`, if there is one.
pub fn find_pair(list: &Vec<(Vec<u8>, Vec<u8>)>, name: &[u8]) -> (r: Option<usize>)
    ensures
        match r {
            Some(i) => param_at(params_view(list@), name@, i as int) && (choose|k: int|
                param_at(params_view(list@), name@, k)) == i,
            None => !exists|k: int| param_at(params_view(list@), name@, k),
        },
{
    let ghost params = params_view(list@);
    let n: usize = list.len();
    let mut i: usize = 0;
    while i < n
        invariant
            n == list@.len(),
            0 <= i <= n,
            params == params_view(list@),
            forall|j: int| 0 <= j < i ==> params[j].0 != name@,
        decreases n - i,
    {
        assert(params[i as int].0 == list@[i as int].0@);
        if bytes_eq(list[i].0.as_slice(), name) {
            proof {
                assert(param_at(params, name@, i as int));
                let c = choose|k: int| param_at(params, name@, k);
                if c < i {
                    assert(params[c].0 != name@);
                } else if i < c {
                    assert(params[i as int].0 != name@);
                }
            }
            return Some(i);
        }
        i = i + 1;
    }
    proof {
        assert forall|k: int| !param_at(params, name@, k) by {}
    }
    None
}

/// Sets the pair named `name` in `list` to `value`: in place where the
/// name occurs, at the end where it is new.
pub fn set_pair(list: &mut Vec<(Vec<u8>, Vec<u8>)>, name: Vec<u8>, value: Vec<u8>)
    ensures
        params_view(final(list)@) == param_set(params_view(old(list)@), name@, value@),
{
    let ghost pair = (name@, value@);
    match find_pair(list, name.as_slice()) {
        Some(i) => {
            list.set(i, (name, value));
            assert(params_view(list@) =~= params_view(old(list)@).update(i as int, pair));
        },
        None => {
            list.push((name, value));
            assert(params_view(list@) =~= params_view(old(list)@).push(pair));
        },
    }
}

/// One number of a dotted address: decimal digits without a leading zero, at most 255.
pub open spec fn parse_octet(s: Seq<u8>) -> Option<u8> {
    match parse_nat(s, 255) {
        Some(v) => if nat_digits(v) == s {
            Some(v as u8)
        } else {
            None
        },
        None => None,
    }
}

/// The numbers of an address of `count` dotted parts.
pub open spec fn parse_octets(s: Seq<u8>, count: nat) -> Option<Seq<u8>>
    decreases count,
{
    if count == 0 {
        None
    } else if count == 1 {
        match parse_octet(s) {
            Some(v) => Some(seq![v]),
            None => None,
        }
    } else {
        match index_of_byte(s, DOT) {
            Some(i) => match (parse_octet(s.take(i)), parse_octets(s.skip(i + 1), (count - 1) as nat)) {
                (Some(v), Some(rest)) => Some(seq![v] + rest),
                _ => None,
            },
            None => None,
        }
    }
}

/// The host that a text names: `localhost` in any case is 127.0.0.1, else
/// four dotted numbers.
pub open spec fn parse_host(s: Seq<u8>) -> Option<Ipv4> {
    if lowercase(s) == ascii("localhost") {
        Some((127u8, 0u8, 0u8, 1u8))
    } else {
        match parse_octets(s, 4) {
            Some(v) => Some((v[0], v[1], v[2], v[3])),
            None => None,
        }
    }
}

/// The text of an address: four dotted numbers.
pub open spec fn host_text(h: Ipv4) -> Seq<u8> {
    nat_digits(h.0 as nat) + seq![DOT] + nat_digits(h.1 as nat) + seq![DOT] + nat_digits(
        h.2 as nat,
    ) + seq![DOT] + nat_digits(h.3 as nat)
}

/// Reads one number of a dotted address.
pub fn read_octet(s: &[u8]) -> (r: Option<u8>)
    ensures
        r == parse_octet(s@),
{
    match read_nat(s, 255) {
        Some(v) => {
            let text: Vec<u8> = crate::decimal::nat_to_bytes(v);
            if bytes_eq(text.as_slice(), s) {
                Some(v as u8)
            } else {
                None
            }
        },
        None => None,
    }
}

/// Reads the host of a master.
pub fn read_host(s: &[u8]) -> (r: Option<Ipv4>)
    ensures
        r == parse_host(s@),
{
    if is_word(s, "localhost".as_bytes()) {
        return Some((127, 0, 0, 1));
    }
    let mut parts: Vec<u8> = Vec::new();
    let mut rest: &[u8] = s;
    let mut left: usize = 4;
    let ghost mut found: Seq<u8> = Seq::empty();
    while left > 1
        invariant
            1 <= left <= 4,
            parts@.len() == 4 - left,
            lowercase(s@) != ascii("localhost"),
            parse_octets(s@, 4) == match parse_octets(rest@, left as nat) {
                Some(v) => Some(parts@ + v),
                None => None,
            },
        decreases left,
    {
        let ghost unfolded = parse_octets(rest@, left as nat);
        let i: usize = match find_byte(rest, DOT) {
            Some(i) => i,
            None => {
                assert(unfolded is None);
                return None;
            },
        };
        assert(i < rest.len());
        let head = slice_subrange(rest, 0, i);
        let tail = slice_subrange(rest, i + 1, rest.len());
        assert(head@ =~= rest@.take(i as int));
        assert(tail@ =~= rest@.skip(i + 1));
        let v: u8 = match read_octet(head) {
            Some(v) => v,
            None => {
                assert(unfolded is None);
                return None;
            },
        };
        proof {
            match parse_octets(tail@, (left - 1) as nat) {
                Some(w) => {
                    assert(parts@ + (seq![v] + w) =~= parts@.push(v) + w);
                },
                None => {},
            }
        }
        parts.push(v);
        rest = tail;
        left = left - 1;
    }
    match read_octet(rest) {
        Some(v) => {
            assert((parts@ + seq![v]).len() == 4);
            Some((parts[0], parts[1], parts[2], v))
        },
        None => None,
    }
}

/// The text that `INFO` shows for a role.
pub open spec fn role_text(role: Role) -> Seq<u8> {
    match role {
        Role::Master => ascii("role:master"),
        Role::Slave { master_host, master_port } => ascii("role:slave\nmaster_host:") + host_text(
            master_host,
        ) + ascii("\nmaster_port:") + nat_digits(master_port as nat),
    }
}

/// The replication section that `INFO` shows.
pub open spec fn replica_text(role: Role, replid: Seq<u8>, offset: u64) -> Seq<u8> {
    ascii("# Replication\n") + role_text(role) + ascii("\nmaster_replid:") + replid + ascii(
        "\nmaster_repl_offset:",
    ) + nat_digits(offset as nat)
}

/// Which sections `INFO` shows for a keyword: everything for none, `all`,
/// `everything` and `default`, replication for `replication`, nothing else.
/// Replication is the only section there is.
pub open spec fn shows_replication(keyword: Option<Seq<u8>>) -> bool {
    match keyword {
        None => true,
        Some(k) => {
            let word = lowercase(trimmed(k));
            word == ascii("all") || word == ascii("everything") || word == ascii("default") || word
                == ascii("replication")
        },
    }
}

impl Role {
    /// The text that `INFO` shows for the role.
    pub fn text(&self) -> (r: Vec<u8>)
        ensures
            r@ == role_text(*self),
    {
        let mut out: Vec<u8> = Vec::new();
        match self {
            Role::Master => {
                push_bytes(&mut out, "role:master".as_bytes());
                assert(out@ =~= role_text(*self));
            },
            Role::Slave { master_host, master_port } => {
                push_bytes(&mut out, "role:slave\nmaster_host:".as_bytes());
                push_nat(master_host.0 as u128, &mut out);
                out.push(DOT);
                push_nat(master_host.1 as u128, &mut out);
                out.push(DOT);
                push_nat(master_host.2 as u128, &mut out);
                out.push(DOT);
                push_nat(master_host.3 as u128, &mut out);
                push_bytes(&mut out, "\nmaster_port:".as_bytes());
                push_nat(*master_port as u128, &mut out);
                assert(out@ =~= role_text(*self));
            },
        }
        out
    }
}

impl Config {
    /// The replication section that `INFO` shows.
    pub fn replica_info(&self) -> (r: Vec<u8>)
        ensures
            r@ == replica_text(
                self.replica_of.role,
                self.replica_of.master_replid@,
                self.replica_of.master_repl_offset,
            ),
    {
        let mut out: Vec<u8> = Vec::new();
        push_bytes(&mut out, "# Replication\n".as_bytes());
        let role: Vec<u8> = self.replica_of.role.text();
        push_bytes(&mut out, role.as_slice());
        push_bytes(&mut out, "\nmaster_replid:".as_bytes());
        push_bytes(&mut out, self.replica_of.master_replid.as_slice());
        push_bytes(&mut out, "\nmaster_repl_offset:".as_bytes());
        push_nat(self.replica_of.master_repl_offset as u128, &mut out);
        assert(out@ =~= replica_text(
            self.replica_of.role,
            self.replica_of.master_replid@,
            self.replica_of.master_repl_offset,
        ));
        out
    }

    /// What `INFO` shows for a keyword.
    pub fn get_info(&self, keyword: Option<&[u8]>) -> (r: Vec<u8>)
        ensures
            r@ == if shows_replication(
                match keyword {
                    Some(k) => Some(k@),
                    None => None,
                },
            ) {
                replica_text(
                    self.replica_of.role,
                    self.replica_of.master_replid@,
                    self.replica_of.master_repl_offset,
                )
            } else {
                Seq::<u8>::empty()
            },
    {
        match keyword {
            None => self.replica_info(),
            Some(k) => {
                let word = trim(k);
                if is_word(word, "all".as_bytes()) || is_word(word, "everything".as_bytes())
                    || is_word(word, "default".as_bytes()) || is_word(
                    word,
                    "replication".as_bytes(),
                ) {
                    self.replica_info()
                } else {
                    Vec::new()
                }
            },
        }
    }

    /// Where the parameter `name` stands, if it is set.
    pub fn find_param(&self, name: &[u8]) -> (r: Option<usize>)
        ensures
            match r {
                Some(i) => param_at(params_view(self.parameters@), name@, i as int) && (choose|
                    k: int,
                | param_at(params_view(self.parameters@), name@, k)) == i,
                None => !exists|k: int| param_at(params_view(self.parameters@), name@, k),
            },
    {
        find_pair(&self.parameters, name)
    }

    /// The value of the parameter `name`, if it is set.
    pub fn get_param(&self, name: &[u8]) -> (r: Option<Vec<u8>>)
        ensures
            match param_value(params_view(self.parameters@), name@) {
                Some(v) => r matches Some(got) && got@ == v,
                None => r is None,
            },
    {
        match self.find_param(name) {
            Some(i) => {
                assert(params_view(self.parameters@)[i as int].1 == self.parameters@[i as int].1@);
                Some(copy_bytes(&self.parameters[i].1))
            },
            None => None,
        }
    }

    /// Sets the parameter `name` to `value`.
    pub fn set_param(&mut self, name: Vec<u8>, value: Vec<u8>)
        ensures
            params_view(final(self).parameters@) == param_set(
                params_view(old(self).parameters@),
                name@,
                value@,
            ),
            final(self).service_port == old(self).service_port,
            final(self).replica_of == old(self).replica_of,
    {
        set_pair(&mut self.parameters, name, value);
    }

    /// The directory and the file name of the snapshot to read at start,
    /// each empty where it is not set.
    pub fn get_db_filepath(&self) -> (r: (Vec<u8>, Vec<u8>))
        ensures
            r.0@ == match param_value(params_view(self.parameters@), ascii("dir")) {
                Some(v) => v,
                None => Seq::<u8>::empty(),
            },
            r.1@ == match param_value(params_view(self.parameters@), ascii("dbfilename")) {
                Some(v) => v,
                None => Seq::<u8>::empty(),
            },
    {
        let dir: Vec<u8> = match self.get_param("dir".as_bytes()) {
            Some(v) => v,
            None => Vec::new(),
        };
        let name: Vec<u8> = match self.get_param("dbfilename".as_bytes()) {
            Some(v) => v,
            None => Vec::new(),
        };
        (dir, name)
    }
}

/// A lower-case hexadecimal digit.
pub open spec fn is_hex_digit(b: u8) -> bool {
    (48 <= b <= 57) || (97 <= b <= 102)
}

/// The hexadecimal digit for the low four bits of a byte.
pub open spec fn hex_of(b: u8) -> u8 {
    if b % 16 < 10 {
        (48 + b % 16) as u8
    } else {
        (87 + b % 16) as u8
    }
}

/// One hexadecimal digit for every byte of `seed`, from its low four bits.
pub fn hex_digits(seed: &[u8]) -> (r: Vec<u8>)
    ensures
        r@.len() == seed@.len(),
        forall|i: int| 0 <= i < r@.len() ==> #[trigger] r@[i] == hex_of(seed@[i]),
        forall|i: int| 0 <= i < r@.len() ==> is_hex_digit(#[trigger] r@[i]),
{
    let mut out: Vec<u8> = Vec::new();
    let n: usize = seed.len();
    let mut i: usize = 0;
    while i < n
        invariant
            n == seed@.len(),
            0 <= i <= n,
            out@.len() == i,
            forall|j: int| 0 <= j < i ==> #[trigger] out@[j] == hex_of(seed@[j]),
        decreases n - i,
    {
        let low: u8 = seed[i] % 16;
        if low < 10 {
            out.push(48 + low);
        } else {
            out.push(87 + low);
        }
        i = i + 1;
    }
    out
}

/// The mathematical model of a configuration.
pub struct ConfigModel {
    pub service_port: u16,
    pub role: Role,
    pub master_replid: Seq<u8>,
    pub master_repl_offset: u64,
    pub parameters: ParamsModel,
}

impl View for Config {
    type V = ConfigModel;

    open spec fn view(&self) -> ConfigModel {
        ConfigModel {
            service_port: self.service_port,
            role: self.replica_of.role,
            master_replid: self.replica_of.master_replid@,
            master_repl_offset: self.replica_of.master_repl_offset,
            parameters: params_view(self.parameters@),
        }
    }
}

/// The configuration of a master on the default port with the given
/// replication id and no parameters.
pub open spec fn default_config(master_replid: Seq<u8>) -> ConfigModel {
    ConfigModel {
        service_port: DEFAULT_PORT,
        role: Role::Master,
        master_replid: master_replid,
        master_repl_offset: 0,
        parameters: Seq::<(Seq<u8>, Seq<u8>)>::empty(),
    }
}

/// What the arguments `args` make of the configuration `cfg`, read from
/// left to right: `--port p`, `--replicaof host port`, `--dir d` and
/// `--dbfilename f`, each value without the white space around it. The first
/// argument that does not fit decides the error.
pub open spec fn apply_args(args: Seq<Seq<u8>>, cfg: ConfigModel) -> Result<
    ConfigModel,
    ConfigError,
>
    decreases args.len(),
{
    if args.len() == 0 {
        Ok(cfg)
    } else if args[0] == ascii("--port") {
        if args.len() < 2 {
            Err(ConfigError::MissingPort)
        } else {
            match parse_unsigned(trimmed(args[1]), 65535) {
                Some(p) => apply_args(
                    args.skip(2),
                    ConfigModel { service_port: p as u16, ..cfg },
                ),
                None => Err(ConfigError::InvalidPort),
            }
        }
    } else if args[0] == ascii("--replicaof") {
        if args.len() < 2 {
            Err(ConfigError::MissingReplicaOf)
        } else {
            match parse_host(trimmed(args[1])) {
                Some(host) => if args.len() < 3 {
                    Err(ConfigError::MissingReplicaOf)
                } else {
                    match parse_unsigned(trimmed(args[2]), 65535) {
                        Some(p) => apply_args(
                            args.skip(3),
                            ConfigModel {
                                role: Role::Slave { master_host: host, master_port: p as u16 },
                                ..cfg
                            },
                        ),
                        None => Err(ConfigError::InvalidMasterPort),
                    }
                },
                None => Err(ConfigError::InvalidMasterHost),
            }
        }
    } else if args[0] == ascii("--dir") {
        if args.len() < 2 {
            Err(ConfigError::MissingDir)
        } else {
            apply_args(
                args.skip(2),
                ConfigModel {
                    parameters: param_set(cfg.parameters, ascii("dir"), trimmed(args[1])),
                    ..cfg
                },
            )
        }
    } else if args[0] == ascii("--dbfilename") {
        if args.len() < 2 {
            Err(ConfigError::MissingDbFilename)
        } else {
            apply_args(
                args.skip(2),
                ConfigModel {
                    parameters: param_set(cfg.parameters, ascii("dbfilename"), trimmed(args[1])),
                    ..cfg
                },
            )
        }
    } else {
        Err(ConfigError::UnknownArgument)
    }
}

/// The configuration that a command line asks for. Its first argument is
/// the name of the program.
pub open spec fn config_of_args(args: Seq<Seq<u8>>, master_replid: Seq<u8>) -> Result<
    ConfigModel,
    ConfigError,
> {
    if args.len() == 0 {
        Ok(default_config(master_replid))
    } else {
        apply_args(args.skip(1), default_config(master_replid))
    }
}

/// The models of a command line.
pub open spec fn args_view(args: Seq<Vec<u8>>) -> Seq<Seq<u8>> {
    Seq::new(args.len(), |i: int| args[i]@)
}

impl Config {
    /// Reads a configuration from a command line whose first argument is
    /// the name of the program, for a server with the given replication id.
    pub fn from_args(args: &Vec<Vec<u8>>, master_replid: Vec<u8>) -> (r: Result<Config, ConfigError>)
        ensures
            match config_of_args(args_view(args@), master_replid@) {
                Ok(cfg) => r matches Ok(got) && got@ == cfg,
                Err(e) => r matches Err(err) && err == e,
            },
    {
        let mut cfg = Config {
            service_port: DEFAULT_PORT,
            replica_of: ReplicaInfo { role: Role::Master, master_replid, master_repl_offset: 0 },
            parameters: Vec::new(),
        };
        let ghost all = args_view(args@);
        let ghost start = default_config(master_replid@);
        assert(cfg@.parameters =~= start.parameters);
        let n: usize = args.len();
        if n == 0 {
            return Ok(cfg);
        }
        let mut i: usize = 1;
        while i < n
            invariant
                n == args@.len(),
                0 <= i <= n,
                all == args_view(args@),
                start == default_config(master_replid@),
                apply_args(all.skip(1), start) == apply_args(all.skip(i as int), cfg@),
            decreases n - i,
        {
            let ghost rest = all.skip(i as int);
            let ghost before = cfg@;
            let ghost outcome = apply_args(rest, before);
            assert(rest[0] == args@[i as int]@);
            let name: &[u8] = args[i].as_slice();
            if bytes_eq(name, "--port".as_bytes()) {
                if n - i < 2 {
                    return Err(ConfigError::MissingPort);
                }
                assert(rest[1] == args@[i + 1]@);
                match read_unsigned(trim(args[i + 1].as_slice()), 65535) {
                    Some(p) => {
                        cfg.service_port = p as u16;
                    },
                    None => {
                        return Err(ConfigError::InvalidPort);
                    },
                }
                assert(rest.skip(2) =~= all.skip(i + 2));
                i = i + 2;
            } else if bytes_eq(name, "--replicaof".as_bytes()) {
                if n - i < 2 {
                    return Err(ConfigError::MissingReplicaOf);
                }
                assert(rest[1] == args@[i + 1]@);
                let host: Ipv4 = match read_host(trim(args[i + 1].as_slice())) {
                    Some(h) => h,
                    None => {
                        return Err(ConfigError::InvalidMasterHost);
                    },
                };
                if n - i < 3 {
                    return Err(ConfigError::MissingReplicaOf);
                }
                assert(rest[2] == args@[i + 2]@);
                match read_unsigned(trim(args[i + 2].as_slice()), 65535) {
                    Some(p) => {
                        cfg.replica_of.role = Role::Slave {
                            master_host: host,
                            master_port: p as u16,
                        };
                    },
                    None => {
                        return Err(ConfigError::InvalidMasterPort);
                    },
                }
                assert(rest.skip(3) =~= all.skip(i + 3));
                i = i + 3;
            } else if bytes_eq(name, "--dir".as_bytes()) {
                if n - i < 2 {
                    return Err(ConfigError::MissingDir);
                }
                assert(rest[1] == args@[i + 1]@);
                let value: Vec<u8> = vstd::slice::slice_to_vec(trim(args[i + 1].as_slice()));
                cfg.set_param(vstd::slice::slice_to_vec("dir".as_bytes()), value);
                assert(rest.skip(2) =~= all.skip(i + 2));
                i = i + 2;
            } else if bytes_eq(name, "--dbfilename".as_bytes()) {
                if n - i < 2 {
                    return Err(ConfigError::MissingDbFilename);
                }
                assert(rest[1] == args@[i + 1]@);
                let value: Vec<u8> = vstd::slice::slice_to_vec(trim(args[i + 1].as_slice()));
                cfg.set_param(vstd::slice::slice_to_vec("dbfilename".as_bytes()), value);
                assert(rest.skip(2) =~= all.skip(i + 2));
                i = i + 2;
            } else {
                return Err(ConfigError::UnknownArgument);
            }
        }
        assert(all.skip(n as int).len() == 0);
        Ok(cfg)
    }

    /// Reads a configuration from a command line and gives the server a
    /// fresh replication id of 40 random hexadecimal digits.
    pub fn new(args: &Vec<Vec<u8>>) -> (r: Result<Config, ConfigError>)
        ensures
            exists|replid: Seq<u8>|
                replid.len() == 40 && (forall|i: int|
                    0 <= i < 40 ==> is_hex_digit(#[trigger] replid[i])) && match config_of_args(
                    args_view(args@),
                    replid,
                ) {
                    Ok(cfg) => r matches Ok(got) && got@ == cfg,
                    Err(e) => r matches Err(err) && err == e,
                },
    {
        let replid: Vec<u8> = hex_digits(random_string(40).as_slice());
        let ghost id = replid@;
        Self::from_args(args, replid)
    }
}

} // verus!
