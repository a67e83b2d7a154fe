//! `XRANGE`.

use vstd::prelude::*;
use crate::cmd::{arg, error_frame, error_reply, take_arg, CmdError, CmdType};
use crate::redis::{stream_index, streams_wf, StreamDB};
use crate::resp::{views, RespType, RespValue};
use crate::stream_entry::{entry_frames, spec_to_xrange, stream_error_text, within, StreamError};
use crate::utils::ascii;

verus! {

pub struct XRange {
    pub stream_key: Vec<u8>,
    pub start_id: Vec<u8>,
    pub end_id: Vec<u8>,
}

impl XRange {
    /// Reads key, start and end from the arguments.
    pub fn new(args: &[RespType]) -> (r: Result<Self, CmdError>)
        ensures
            match (arg(views(args@), 0), arg(views(args@), 1), arg(views(args@), 2)) {
                (Ok(key), Ok(start), Ok(end)) => r matches Ok(c) && c.stream_key@ == key
                    && c.start_id@ == start && c.end_id@ == end,
                (Err(e), _, _) => r matches Err(err) && err == e,
                (_, Err(e), _) => r matches Err(err) && err == e,
                (_, _, Err(e)) => r matches Err(err) && err == e,
            },
    {
        let stream_key: Vec<u8> = match take_arg(args, 0) {
            Ok(v) => v,
            Err(e) => {
                return Err(e);
            },
        };
        let start_id: Vec<u8> = match take_arg(args, 1) {
            Ok(v) => v,
            Err(e) => {
                return Err(e);
            },
        };
        let end_id: Vec<u8> = match take_arg(args, 2) {
            Ok(v) => v,
            Err(e) => {
                return Err(e);
            },
        };
        Ok(XRange { stream_key, start_id, end_id })
    }

    /// Answers the entries of the stream from start to end, both
    /// included, in order: each as its identifier and its fields. Where
    /// no stream stands under the key the answer is an empty array, sent
    /// verbatim; a bound that is no identifier is answered with an error.
    pub fn run(&self, streams: &StreamDB) -> (r: RespType)
        requires
            streams_wf(streams@),
        ensures
            match stream_index(streams@, self.stream_key@) {
                Some(i) => match (spec_to_xrange(self.start_id@), spec_to_xrange(self.end_id@)) {
                    (Some(lo), Some(hi)) => r@ == RespValue::Array(
                        entry_frames(streams@[i].1.entries.filter(within(lo, hi))),
                    ),
                    _ => r@ == error_frame(stream_error_text(StreamError::InvalidId)),
                },
                None => r@ == RespValue::Raw(ascii("*0\r\n")),
            },
    {
        match streams.find(self.stream_key.as_slice()) {
            Some(i) => {
                assert(streams@[i as int].1 == streams.list@[i as int].stream@);
                match streams.list[i].stream.query_xrange(
                    self.start_id.as_slice(),
                    self.end_id.as_slice(),
                ) {
                    Some((frame, _)) => frame,
                    None => error_reply(StreamError::InvalidId.message().as_bytes()),
                }
            },
            None => RespType::WildCard(vstd::slice::slice_to_vec("*0\r\n".as_bytes())),
        }
    }

    pub fn cmd_type(&self) -> (r: CmdType)
        ensures
            r == CmdType::XRANGE,
    {
        CmdType::XRANGE
    }
}

} // verus!
