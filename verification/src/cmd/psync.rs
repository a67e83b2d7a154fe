//! `PSYNC`.

use vstd::prelude::*;
use crate::cmd::{arg, take_arg, CmdError, CmdType};
use crate::config::Config;
use crate::constants::{crlf, magic, CR, DOLLAR, LF};
use crate::data_entry::ValueModel;
use crate::decimal::{nat_digits, parse_signed, push_nat, read_i64};
use crate::rdb::{snapshot_bytes, HeaderModel, RDBHeader};
use crate::redis::{db_wf, registered, slaves_wf, DbModel, RedisDB, Slaves};
use crate::resp::{push_bytes, views, RespType, RespValue};
use crate::slave_meta::PeerAddr;
use crate::utils::{ascii, dump_rdb_file};

verus! {

pub struct Psync {
    pub replid: Vec<u8>,
    pub offset: i64,
}

/// The header of the snapshots that a master sends: version 3, no settings.
pub open spec fn sync_header() -> HeaderModel {
    HeaderModel {
        magic: magic(),
        rdb_version: 3,
        aux_settings: Seq::<(ValueModel, ValueModel)>::empty(),
    }
}

/// What a master answers to `PSYNC`: the line that announces a full
/// resynchronisation under its replication id, and the snapshot of the
/// key-space behind its length. No terminator follows the snapshot.
pub open spec fn full_resync(replid: Seq<u8>, db: DbModel) -> Seq<u8> {
    let snapshot = snapshot_bytes(sync_header(), db);
    ascii("+FULLRESYNC ") + replid + ascii(" 0\r\n") + seq![DOLLAR] + nat_digits(snapshot.len())
        + crlf() + snapshot
}

impl Psync {
    /// Reads the replication id and the offset from the arguments.
    pub fn new(args: &[RespType]) -> (r: Result<Self, CmdError>)
        ensures
            match (arg(views(args@), 0), arg(views(args@), 1)) {
                (Ok(replid), Ok(text)) => match parse_signed(
                    text,
                    0x8000_0000_0000_0000,
                    0x7fff_ffff_ffff_ffff,
                ) {
                    Some(n) => r matches Ok(c) && c.replid@ == replid && c.offset == n,
                    None => r matches Err(err) && err == CmdError::InvalidArg,
                },
                (Err(e), _) => r matches Err(err) && err == e,
                (_, Err(e)) => r matches Err(err) && err == e,
            },
    {
        let replid: Vec<u8> = match take_arg(args, 0) {
            Ok(v) => v,
            Err(e) => {
                return Err(e);
            },
        };
        let text: Vec<u8> = match take_arg(args, 1) {
            Ok(v) => v,
            Err(e) => {
                return Err(e);
            },
        };
        match read_i64(text.as_slice()) {
            Some(offset) => Ok(Psync { replid, offset }),
            None => Err(CmdError::InvalidArg),
        }
    }

    /// Answers with a full resynchronisation, sent verbatim, and registers
    /// the peer as a replica: what is written from now on is staged for it.
    pub fn run(&self, dict: &RedisDB, config: &Config, slaves: &mut Slaves, peer: PeerAddr) -> (r:
        RespType)
        requires
            db_wf(dict@),
            slaves_wf(old(slaves)@),
        ensures
            r@ == RespValue::Raw(full_resync(config.replica_of.master_replid@, dict@)),
            final(slaves)@ == registered(old(slaves)@, peer),
            slaves_wf(final(slaves)@),
    {
        let header = RDBHeader {
            magic: vstd::slice::slice_to_vec("REDIS".as_bytes()),
            rdb_version: 3,
            aux_settings: Vec::new(),
        };
        proof {
            reveal_strlit("REDIS");
            vstd::string::is_ascii_spec_bytes("REDIS");
            assert(ascii("REDIS") =~= magic());
            assert(header@.aux_settings =~= Seq::<(ValueModel, ValueModel)>::empty());
        }
        proof {
            crate::redis::lemma_db_encodable(dict@);
        }
        let snapshot: Vec<u8> = dump_rdb_file(&header, dict);
        let mut msg: Vec<u8> = Vec::new();
        push_bytes(&mut msg, "+FULLRESYNC ".as_bytes());
        push_bytes(&mut msg, config.replica_of.master_replid.as_slice());
        push_bytes(&mut msg, " 0\r\n".as_bytes());
        msg.push(DOLLAR);
        push_nat(snapshot.len() as u128, &mut msg);
        msg.push(CR);
        msg.push(LF);
        push_bytes(&mut msg, snapshot.as_slice());
        assert(msg@ =~= full_resync(config.replica_of.master_replid@, dict@));
        slaves.get_or_insert(peer);
        RespType::WildCard(msg)
    }

    pub fn cmd_type(&self) -> (r: CmdType)
        ensures
            r == CmdType::PSYNC,
    {
        CmdType::PSYNC
    }
}

} // verus!
