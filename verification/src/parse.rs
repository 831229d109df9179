//! Parsers for the textual payload of replies: maildrop statistics,
//! listing entries, unique-id entries and single-message size lookups.
//!
//! Every parser is exact: it succeeds precisely when its specification
//! yields a value, and the value matches; otherwise it reports a
//! `Parse` failure naming the field that was expected.

use vstd::prelude::*;
use vstd::string::*;

use crate::text::{parse_u32_field, parse_u32_spec, split_fields, split_sp};
use crate::{Pop3Error, Pop3MessageInfo, Pop3MessageUidInfo, Pop3Stat};

verus! {

/// What a `STAT` status line yields: its second and third fields as
/// message count and maildrop size.
pub open spec fn stat_of(line: Seq<char>) -> Option<(u32, u32)> {
    let fs = split_sp(line);
    if fs.len() >= 3 && parse_u32_spec(fs[1]) is Some && parse_u32_spec(fs[2]) is Some {
        Some((parse_u32_spec(fs[1]).unwrap(), parse_u32_spec(fs[2]).unwrap()))
    } else {
        None
    }
}

/// What a one-message `LIST` status line yields: its third field as the
/// message size.
pub open spec fn size_of_reply(line: Seq<char>) -> Option<u32> {
    let fs = split_sp(line);
    if fs.len() >= 3 && parse_u32_spec(fs[2]) is Some {
        Some(parse_u32_spec(fs[2]).unwrap())
    } else {
        None
    }
}

/// What a one-message `UIDL` status line yields: its third field as the
/// unique-id token.
pub open spec fn uid_of_reply(line: Seq<char>) -> Option<Seq<char>> {
    let fs = split_sp(line);
    if fs.len() >= 3 {
        Some(fs[2])
    } else {
        None
    }
}

/// What a `LIST` body line yields: its first two fields as message id
/// and message size.
pub open spec fn info_of(line: Seq<char>) -> Option<(u32, u32)> {
    let fs = split_sp(line);
    if fs.len() >= 2 && parse_u32_spec(fs[0]) is Some && parse_u32_spec(fs[1]) is Some {
        Some((parse_u32_spec(fs[0]).unwrap(), parse_u32_spec(fs[1]).unwrap()))
    } else {
        None
    }
}

/// What a `UIDL` body line yields: its first field as message id and its
/// second as the unique-id token.
pub open spec fn uid_info_of(line: Seq<char>) -> Option<(u32, Seq<char>)> {
    let fs = split_sp(line);
    if fs.len() >= 2 && parse_u32_spec(fs[0]) is Some {
        Some((parse_u32_spec(fs[0]).unwrap(), fs[1]))
    } else {
        None
    }
}

/// The field named by a failed `STAT` parse, checked in reply order.
pub open spec fn stat_err_of(line: Seq<char>) -> Seq<char> {
    let fs = split_sp(line);
    if fs.len() < 2 {
        "missing message count"@
    } else if parse_u32_spec(fs[1]) is None {
        "invalid message count"@
    } else if fs.len() < 3 {
        "missing maildrop size"@
    } else {
        "invalid maildrop size"@
    }
}

/// The field named by a failed one-message `LIST` parse.
pub open spec fn size_err_of(line: Seq<char>) -> Seq<char> {
    let fs = split_sp(line);
    if fs.len() < 3 {
        "missing size"@
    } else {
        "invalid size"@
    }
}

/// The field named by a failed one-message `UIDL` parse.
pub open spec fn uid_reply_err_of(line: Seq<char>) -> Seq<char> {
    "missing unique id"@
}

/// The field named by a failed `LIST` body-line parse, checked in
/// field order.
pub open spec fn info_err_of(line: Seq<char>) -> Seq<char> {
    let fs = split_sp(line);
    if parse_u32_spec(fs[0]) is None {
        "invalid id"@
    } else if fs.len() < 2 {
        "missing size"@
    } else {
        "invalid size"@
    }
}

/// The field named by a failed `UIDL` body-line parse, checked in
/// field order.
pub open spec fn uid_info_err_of(line: Seq<char>) -> Seq<char> {
    let fs = split_sp(line);
    if parse_u32_spec(fs[0]) is None {
        "invalid id"@
    } else {
        "missing unique id"@
    }
}

/// Parse a `STAT` reply into maildrop statistics.
pub fn parse_stat_line(line: &str) -> (r: Result<Pop3Stat, Pop3Error>)
    ensures
        match r {
            Ok(st) => stat_of(line@) == Some((st.message_count, st.maildrop_size)),
            Err(e) => e matches Pop3Error::Parse(m) && stat_of(line@) is None && m@
                == stat_err_of(line@),
        },
{
    let fields = split_fields(line);
    proof {
        assert(fields@.map_values(|t: String| t@)[1] == split_sp(line@)[1]);
        assert(fields@.map_values(|t: String| t@)[2] == split_sp(line@)[2]);
    }
    if fields.len() < 2 {
        return Err(Pop3Error::Parse(String::from_str("missing message count")));
    }
    let message_count = match parse_u32_field(fields[1].as_str()) {
        Some(v) => v,
        None => {
            return Err(Pop3Error::Parse(String::from_str("invalid message count")));
        },
    };
    if fields.len() < 3 {
        return Err(Pop3Error::Parse(String::from_str("missing maildrop size")));
    }
    let maildrop_size = match parse_u32_field(fields[2].as_str()) {
        Some(v) => v,
        None => {
            return Err(Pop3Error::Parse(String::from_str("invalid maildrop size")));
        },
    };
    Ok(Pop3Stat { message_count, maildrop_size })
}

/// Parse a one-message `LIST` reply into the message size.
pub fn parse_message_size_line(line: &str) -> (r: Result<u32, Pop3Error>)
    ensures
        match r {
            Ok(size) => size_of_reply(line@) == Some(size),
            Err(e) => e matches Pop3Error::Parse(m) && size_of_reply(line@) is None && m@
                == size_err_of(line@),
        },
{
    let fields = split_fields(line);
    proof {
        assert(fields@.map_values(|t: String| t@)[2] == split_sp(line@)[2]);
    }
    if fields.len() < 3 {
        return Err(Pop3Error::Parse(String::from_str("missing size")));
    }
    match parse_u32_field(fields[2].as_str()) {
        Some(v) => Ok(v),
        None => Err(Pop3Error::Parse(String::from_str("invalid size"))),
    }
}

/// Parse a one-message `UIDL` reply into the unique-id token.
pub fn parse_unique_id_line(line: &str) -> (r: Result<String, Pop3Error>)
    ensures
        match r {
            Ok(uid) => uid_of_reply(line@) == Some(uid@),
            Err(e) => e matches Pop3Error::Parse(m) && uid_of_reply(line@) is None && m@
                == uid_reply_err_of(line@),
        },
{
    let mut fields = split_fields(line);
    proof {
        assert(fields@.map_values(|t: String| t@)[2] == split_sp(line@)[2]);
    }
    if fields.len() < 3 {
        return Err(Pop3Error::Parse(String::from_str("missing unique id")));
    }
    let uid = fields.remove(2);
    Ok(uid)
}

/// Parse a `LIST` body line into a listing entry.
pub fn parse_info_line(line: &str) -> (r: Result<Pop3MessageInfo, Pop3Error>)
    ensures
        match r {
            Ok(info) => info_of(line@) == Some((info.message_id, info.message_size)),
            Err(e) => e matches Pop3Error::Parse(m) && info_of(line@) is None && m@
                == info_err_of(line@),
        },
{
    let fields = split_fields(line);
    proof {
        assert(fields@.map_values(|t: String| t@)[0] == split_sp(line@)[0]);
        assert(fields@.map_values(|t: String| t@)[1] == split_sp(line@)[1]);
    }
    let message_id = match parse_u32_field(fields[0].as_str()) {
        Some(v) => v,
        None => {
            return Err(Pop3Error::Parse(String::from_str("invalid id")));
        },
    };
    if fields.len() < 2 {
        return Err(Pop3Error::Parse(String::from_str("missing size")));
    }
    let message_size = match parse_u32_field(fields[1].as_str()) {
        Some(v) => v,
        None => {
            return Err(Pop3Error::Parse(String::from_str("invalid size")));
        },
    };
    Ok(Pop3MessageInfo { message_id, message_size })
}

/// Parse a `UIDL` body line into a unique-id entry.
pub fn parse_uid_info_line(line: &str) -> (r: Result<Pop3MessageUidInfo, Pop3Error>)
    ensures
        match r {
            Ok(info) => uid_info_of(line@) == Some((info.message_id, info.unique_id@)),
            Err(e) => e matches Pop3Error::Parse(m) && uid_info_of(line@) is None && m@
                == uid_info_err_of(line@),
        },
{
    let mut fields = split_fields(line);
    proof {
        assert(fields@.map_values(|t: String| t@)[0] == split_sp(line@)[0]);
        assert(fields@.map_values(|t: String| t@)[1] == split_sp(line@)[1]);
    }
    let message_id = match parse_u32_field(fields[0].as_str()) {
        Some(v) => v,
        None => {
            return Err(Pop3Error::Parse(String::from_str("invalid id")));
        },
    };
    if fields.len() < 2 {
        return Err(Pop3Error::Parse(String::from_str("missing unique id")));
    }
    let unique_id = fields.remove(1);
    Ok(Pop3MessageUidInfo { message_id, unique_id })
}

} // verus!
