//! `CONFIG GET`.

use vstd::prelude::*;
use crate::cmd::{arg, array_of_bulks, bulks, take_arg, texts, CmdError, CmdType};
use crate::config::{param_value, params_view, Config};
use crate::resp::{copy_bytes, views, RespType, RespValue};
use crate::utils::{ascii, is_word, lowercase, to_lowercase, trim, trimmed};

verus! {

pub struct ConfigGet {
    pub param: Vec<u8>,
}

/// The arguments of `CONFIG`: the word `get` in any case, and the name of
/// a parameter, which is read without the white space around it and in lower case.
pub open spec fn config_get_args(args: Seq<RespValue>) -> Result<Seq<u8>, CmdError> {
    match arg(args, 0) {
        Ok(word) => if lowercase(word) == ascii("get") {
            match arg(args, 1) {
                Ok(name) => Ok(lowercase(trimmed(name))),
                Err(e) => Err(e),
            }
        } else {
            Err(CmdError::NotImplementedCmd)
        },
        Err(e) => Err(e),
    }
}

impl ConfigGet {
    /// Reads the name of the parameter from the arguments.
    pub fn new(args: &[RespType]) -> (r: Result<Self, CmdError>)
        ensures
            match config_get_args(views(args@)) {
                Ok(name) => r matches Ok(c) && c.param@ == name,
                Err(e) => r matches Err(err) && err == e,
            },
    {
        let word: Vec<u8> = match take_arg(args, 0) {
            Ok(word) => word,
            Err(e) => {
                return Err(e);
            },
        };
        if !is_word(word.as_slice(), "get".as_bytes()) {
            return Err(CmdError::NotImplementedCmd);
        }
        match take_arg(args, 1) {
            Ok(name) => Ok(ConfigGet { param: to_lowercase(trim(name.as_slice())) }),
            Err(e) => Err(e),
        }
    }

    /// Answers the name and the value of the parameter, `-1` for the
    /// value where the parameter is not set.
    pub fn run(&self, config: &Config) -> (r: RespType)
        ensures
            r@ == bulks(
                seq![
                    self.param@,
                    match param_value(params_view(config.parameters@), self.param@) {
                        Some(v) => v,
                        None => ascii("-1"),
                    },
                ],
            ),
    {
        let value: Vec<u8> = match config.get_param(self.param.as_slice()) {
            Some(v) => v,
            None => vstd::slice::slice_to_vec("-1".as_bytes()),
        };
        let mut words: Vec<Vec<u8>> = Vec::new();
        words.push(copy_bytes(&self.param));
        words.push(value);
        assert(texts(words@) =~= seq![
            self.param@,
            match param_value(params_view(config.parameters@), self.param@) {
                Some(v) => v,
                None => ascii("-1"),
            },
        ]);
        array_of_bulks(words)
    }

    pub fn cmd_type(&self) -> (r: CmdType)
        ensures
            r == CmdType::CONFIG_GET,
    {
        CmdType::CONFIG_GET
    }
}

} // verus!
