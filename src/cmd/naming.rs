use vstd::prelude::*;

use crate::error::I2pError;
use crate::exchange::{exchange, Transport};
use crate::message::{parse, parse_spec, value_of, Command, ParseError, Subcommand};

verus! {

/// The statuses a `NAMING REPLY` can carry.
#[derive(Debug, Clone, Copy, PartialEq, Eq, Structural)]
pub enum NamingStatus {
    /// `OK`: the name resolved.
    Found,
    /// `KEY_NOT_FOUND`: the name has no known destination.
    KeyNotFound,
    /// `INVALID_KEY`: the name is not a valid key.
    InvalidKey,
    /// `INVALID`: the request was refused.
    Invalid,
    /// Any status word the protocol does not define for this reply.
    Unrecognized,
}

/// The status a `RESULT` value stands for.
pub open spec fn status_of(v: Seq<char>) -> NamingStatus {
    if v == "OK"@ {
        NamingStatus::Found
    } else if v == "KEY_NOT_FOUND"@ {
        NamingStatus::KeyNotFound
    } else if v == "INVALID_KEY"@ {
        NamingStatus::InvalidKey
    } else if v == "INVALID"@ {
        NamingStatus::Invalid
    } else {
        NamingStatus::Unrecognized
    }
}

/// Reads a `RESULT` value.
pub fn naming_status(v: &String) -> (r: NamingStatus)
    ensures
        r == status_of(v@),
{
    if *v == String::from_str("OK") {
        NamingStatus::Found
    } else if *v == String::from_str("KEY_NOT_FOUND") {
        NamingStatus::KeyNotFound
    } else if *v == String::from_str("INVALID_KEY") {
        NamingStatus::InvalidKey
    } else if *v == String::from_str("INVALID") {
        NamingStatus::Invalid
    } else {
        NamingStatus::Unrecognized
    }
}

/// The name and destination a lookup yields, or the error it ends with,
/// for the reply line `raw`. Only `OK` is success; a status the protocol
/// does not define reads as a malformed reply.
pub open spec fn lookup_reply(raw: Seq<char>) -> Result<(Seq<char>, Seq<char>), I2pError> {
    match parse_spec(raw, Command::Naming, Some(Subcommand::Reply)) {
        Err(_) => Err(I2pError::InvalidValue),
        Ok(fs) => match value_of(fs, "RESULT"@) {
            None => Err(I2pError::InvalidValue),
            Some(status) => match status_of(status) {
                NamingStatus::Found => match value_of(fs, "NAME"@) {
                    None => Err(I2pError::InvalidValue),
                    Some(name) => Ok(
                        (
                            name,
                            match value_of(fs, "VALUE"@) {
                                Some(v) => v,
                                None => Seq::empty(),
                            },
                        ),
                    ),
                },
                NamingStatus::KeyNotFound => Err(I2pError::DoesntExist),
                NamingStatus::InvalidKey | NamingStatus::Invalid | NamingStatus::Unrecognized => Err(
                    I2pError::InvalidValue,
                ),
            },
        },
    }
}

/// The contents of a lookup's result.
pub open spec fn pair_view(r: Result<(String, String), I2pError>) -> Result<
    (Seq<char>, Seq<char>),
    I2pError,
> {
    match r {
        Ok(p) => Ok((p.0@, p.1@)),
        Err(e) => Err(e),
    }
}

/// The line that asks the router for the destination of `addr`.
pub open spec fn lookup_request_spec(addr: Seq<char>) -> Seq<char> {
    "NAMING LOOKUP NAME="@ + addr + "\n"@
}

/// Builds the line that asks the router for the destination of `addr`.
pub fn lookup_request(addr: &str) -> (r: String)
    ensures
        r@ == lookup_request_spec(addr@),
{
    let mut msg = String::from_str("NAMING LOOKUP NAME=");
    msg.append(addr);
    msg.append("\n");
    msg
}

/// Reads a `NAMING REPLY` line: its status decides between the `NAME` and
/// `VALUE` fields (an absent `VALUE` reads as empty) and an error.
pub fn parse_lookup_reply(raw: &str) -> (r: Result<(String, String), I2pError>)
    ensures
        pair_view(r) == lookup_reply(raw@),
{
    let parsed = match parse(raw, Command::Naming, Some(Subcommand::Reply)) {
        Ok(p) => p,
        Err(_) => {
            return Err(I2pError::InvalidValue);
        },
    };
    let status = match parsed.get_value("RESULT") {
        Some(v) => v,
        None => {
            return Err(I2pError::InvalidValue);
        },
    };
    match naming_status(&status) {
        NamingStatus::Found => {},
        NamingStatus::KeyNotFound => {
            return Err(I2pError::DoesntExist);
        },
        NamingStatus::InvalidKey | NamingStatus::Invalid | NamingStatus::Unrecognized => {
            return Err(I2pError::InvalidValue);
        },
    }
    let value = match parsed.get_value("VALUE") {
        Some(v) => v,
        None => String::new(),
    };
    match parsed.get_value("NAME") {
        Some(name) => Ok((name, value)),
        None => Err(I2pError::InvalidValue),
    }
}

/// Resolves `addr` through the router behind `socket`: one `NAMING LOOKUP`
/// round trip. The result is a transport failure, or what the reply that
/// came back reads as.
pub fn lookup<S: Transport>(socket: &mut S, addr: &str) -> (r: Result<(String, String), I2pError>)
    ensures
        r == Err::<(String, String), I2pError>(I2pError::TcpConnectionError) || exists|
            reply: Seq<char>,
        | #[trigger] lookup_reply(reply) == pair_view(r),
{
    let msg = lookup_request(addr);
    match exchange(socket, msg.as_str()) {
        Ok(line) => {
            let r = parse_lookup_reply(line.as_str());
            assert(lookup_reply(line@) == pair_view(r));
            r
        },
        Err(e) => Err(e),
    }
}

/// A reply with `RESULT=OK`, a `NAME` and a `VALUE` yields that name and that
/// value exactly as they stood on the line.
pub proof fn lemma_ok_reply_yields_fields(
    raw: Seq<char>,
    fields: Seq<(Seq<char>, Seq<char>)>,
    name: Seq<char>,
    value: Seq<char>,
)
    requires
        parse_spec(raw, Command::Naming, Some(Subcommand::Reply)) == Ok::<_, ParseError>(fields),
        value_of(fields, "RESULT"@) == Some("OK"@),
        value_of(fields, "NAME"@) == Some(name),
        value_of(fields, "VALUE"@) == Some(value),
    ensures
        lookup_reply(raw) == Ok::<_, I2pError>((name, value)),
{
}

/// A reply with `RESULT=KEY_NOT_FOUND` yields `DoesntExist`, whatever other
/// fields it holds.
pub proof fn lemma_key_not_found_reply(raw: Seq<char>, fields: Seq<(Seq<char>, Seq<char>)>)
    requires
        parse_spec(raw, Command::Naming, Some(Subcommand::Reply)) == Ok::<_, ParseError>(fields),
        value_of(fields, "RESULT"@) == Some("KEY_NOT_FOUND"@),
    ensures
        lookup_reply(raw) == Err::<(Seq<char>, Seq<char>), _>(I2pError::DoesntExist),
{
    reveal_strlit("KEY_NOT_FOUND");
    reveal_strlit("OK");
    assert("KEY_NOT_FOUND"@.len() != "OK"@.len());
}

/// A reply with `RESULT=INVALID_KEY` or `RESULT=INVALID` yields `InvalidValue`.
pub proof fn lemma_invalid_reply(raw: Seq<char>, fields: Seq<(Seq<char>, Seq<char>)>)
    requires
        parse_spec(raw, Command::Naming, Some(Subcommand::Reply)) == Ok::<_, ParseError>(fields),
        value_of(fields, "RESULT"@) == Some("INVALID_KEY"@) || value_of(fields, "RESULT"@) == Some(
            "INVALID"@,
        ),
    ensures
        lookup_reply(raw) == Err::<(Seq<char>, Seq<char>), _>(I2pError::InvalidValue),
{
    reveal_strlit("KEY_NOT_FOUND");
    reveal_strlit("OK");
    reveal_strlit("INVALID_KEY");
    reveal_strlit("INVALID");
    assert("INVALID_KEY"@.len() != "OK"@.len());
    assert("INVALID_KEY"@.len() != "KEY_NOT_FOUND"@.len());
    assert("INVALID"@.len() != "OK"@.len());
    assert("INVALID"@.len() != "KEY_NOT_FOUND"@.len());
}

/// A reply without a `RESULT` field yields `InvalidValue`.
pub proof fn lemma_missing_result(raw: Seq<char>)
    requires
        parse_spec(raw, Command::Naming, Some(Subcommand::Reply)) matches Ok(fields) ==> value_of(
            fields,
            "RESULT"@,
        ) is None,
    ensures
        lookup_reply(raw) == Err::<(Seq<char>, Seq<char>), _>(I2pError::InvalidValue),
{
}

/// A reply with `RESULT=OK` but without a `NAME` field yields `InvalidValue`.
pub proof fn lemma_missing_name(raw: Seq<char>, fields: Seq<(Seq<char>, Seq<char>)>)
    requires
        parse_spec(raw, Command::Naming, Some(Subcommand::Reply)) == Ok::<_, ParseError>(fields),
        value_of(fields, "RESULT"@) == Some("OK"@),
        value_of(fields, "NAME"@) is None,
    ensures
        lookup_reply(raw) == Err::<(Seq<char>, Seq<char>), _>(I2pError::InvalidValue),
{
}

/// A reply with `RESULT=OK` and without a `VALUE` field yields an empty
/// destination; it succeeds exactly when it holds a `NAME`.
pub proof fn lemma_missing_value(raw: Seq<char>, fields: Seq<(Seq<char>, Seq<char>)>)
    requires
        parse_spec(raw, Command::Naming, Some(Subcommand::Reply)) == Ok::<_, ParseError>(fields),
        value_of(fields, "RESULT"@) == Some("OK"@),
        value_of(fields, "VALUE"@) is None,
    ensures
        lookup_reply(raw) is Ok <==> value_of(fields, "NAME"@) is Some,
        lookup_reply(raw) matches Ok(p) ==> p.1 == Seq::<char>::empty(),
{
}

} // verus!
