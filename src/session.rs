use vstd::prelude::*;

use rand::Rng;

use crate::cmd::naming::{lookup, lookup_reply, pair_view};
use crate::error::I2pError;
use crate::exchange::{exchange, Transport};
use crate::message::{
    fields_view, format_message, message_spec, parse, parse_spec, value_of, Command, Subcommand,
};

verus! {

/// Length of the nickname a session picks for itself.
pub const NICK_LEN: usize = 30;

/// Kinds of session the router can open.
#[derive(Debug, Clone, Copy, PartialEq, Eq, Structural)]
pub enum SessionType {
    VirtualStream,
    RepliableDatagram,
    AnonymousDatagram,
}

/// The `STYLE` a session type is created with.
pub open spec fn style_word(t: SessionType) -> Seq<char> {
    match t {
        SessionType::VirtualStream => "STREAM"@,
        SessionType::RepliableDatagram => "DATAGRAM"@,
        SessionType::AnonymousDatagram => "RAW"@,
    }
}

impl SessionType {
    pub fn style(&self) -> (r: &'static str)
        ensures
            r@ == style_word(*self),
    {
        match self {
            SessionType::VirtualStream => "STREAM",
            SessionType::RepliableDatagram => "DATAGRAM",
            SessionType::AnonymousDatagram => "RAW",
        }
    }
}

/// An ASCII letter or digit.
pub open spec fn is_alphanumeric(c: char) -> bool {
    ('A' <= c <= 'Z') || ('a' <= c <= 'z') || ('0' <= c <= '9')
}

/// Relies on rand's `Alphanumeric` distribution sampled from `thread_rng`,
/// `len` times: every character is an ASCII letter or digit.
#[verifier::external_body]
fn random_alphanumeric(len: usize) -> (r: String)
    ensures
        r@.len() == len,
        forall|i: int| 0 <= i < len ==> is_alphanumeric(#[trigger] r@[i]),
{
    rand::thread_rng().sample_iter(&rand::distributions::Alphanumeric).take(len).map(
        char::from,
    ).collect()
}

/// The fields of the line that opens a session of type `t` under `nick`,
/// with a fresh destination.
pub open spec fn create_fields(t: SessionType, nick: Seq<char>) -> Seq<(Seq<char>, Seq<char>)> {
    seq![("STYLE"@, style_word(t)), ("ID"@, nick), ("DESTINATION"@, "TRANSIENT"@)]
}

/// Builds the `SESSION CREATE` line for a session of type `stype` under `nick`.
pub fn create_request(stype: SessionType, nick: &str) -> (r: String)
    ensures
        r@ == message_spec(Command::Session, Some(Subcommand::Create), create_fields(stype, nick@)),
{
    let mut fields: Vec<(String, String)> = Vec::new();
    fields.push((String::from_str("STYLE"), String::from_str(stype.style())));
    fields.push((String::from_str("ID"), String::from_str(nick)));
    fields.push((String::from_str("DESTINATION"), String::from_str("TRANSIENT")));
    assert(fields_view(fields@) =~= create_fields(stype, nick@));
    format_message(Command::Session, Some(Subcommand::Create), &fields)
}

/// What the reply `raw` to a `SESSION CREATE` line means: success exactly
/// when it is a `SESSION STATUS` line with `RESULT=OK`.
pub open spec fn create_reply(raw: Seq<char>) -> Result<(), I2pError> {
    match parse_spec(raw, Command::Session, Some(Subcommand::Status)) {
        Ok(fs) => if value_of(fs, "RESULT"@) == Some("OK"@) {
            Ok(())
        } else {
            Err(I2pError::InvalidValue)
        },
        Err(_) => Err(I2pError::InvalidValue),
    }
}

/// Reads the reply to a `SESSION CREATE` line.
pub fn parse_create_reply(raw: &str) -> (r: Result<(), I2pError>)
    ensures
        r == create_reply(raw@),
{
    let parsed = match parse(raw, Command::Session, Some(Subcommand::Status)) {
        Ok(p) => p,
        Err(_) => {
            return Err(I2pError::InvalidValue);
        },
    };
    match parsed.get_value("RESULT") {
        Some(status) => {
            if status == String::from_str("OK") {
                Ok(())
            } else {
                Err(I2pError::InvalidValue)
            }
        },
        None => Err(I2pError::InvalidValue),
    }
}

/// The destination a session learns from the lookup of its own name: the
/// looked-up value, where it is not empty.
pub open spec fn own_destination(
    r: Result<(Seq<char>, Seq<char>), I2pError>,
) -> Result<Seq<char>, I2pError> {
    match r {
        Ok(p) => if p.1.len() == 0 {
            Err(I2pError::InvalidValue)
        } else {
            Ok(p.1)
        },
        Err(e) => Err(e),
    }
}

/// Takes the session's own destination out of the result of looking up `ME`.
pub fn destination_from_lookup(r: Result<(String, String), I2pError>) -> (d: Result<
    String,
    I2pError,
>)
    ensures
        match d {
            Ok(s) => own_destination(pair_view(r)) == Ok::<_, I2pError>(s@),
            Err(e) => own_destination(pair_view(r)) == Err::<Seq<char>, _>(e),
        },
{
    match r {
        Ok(p) => {
            if p.1.as_str().is_empty() {
                Err(I2pError::InvalidValue)
            } else {
                Ok(p.1)
            }
        },
        Err(e) => Err(e),
    }
}

/// A session opened with the router over its own control connection.
pub struct I2pSession<S> {
    pub socket: S,
    /// The nickname the session was created under.
    pub nick: String,
    /// The session's own destination.
    pub local: String,
}

impl<S: Transport> I2pSession<S> {
    /// Opens a session of type `stype` over `socket`, a fresh connection to
    /// the router's SAM gateway: picks a random nickname, creates the session
    /// under it, and looks up the session's own destination (`ME`).
    pub fn new(socket: S, stype: SessionType) -> (r: Result<I2pSession<S>, I2pError>)
        ensures
            r matches Ok(sess) ==> {
                &&& sess.nick@.len() == NICK_LEN
                &&& forall|i: int| 0 <= i < NICK_LEN ==> is_alphanumeric(#[trigger] sess.nick@[i])
                &&& sess.local@.len() > 0
                &&& exists|reply: Seq<char>|
                    #[trigger] own_destination(lookup_reply(reply)) == Ok::<_, I2pError>(
                        sess.local@,
                    )
            },
    {
        let mut socket = socket;
        let nick = random_alphanumeric(NICK_LEN);
        let msg = create_request(stype, nick.as_str());
        let line = match exchange(&mut socket, msg.as_str()) {
            Ok(line) => line,
            Err(e) => {
                return Err(e);
            },
        };
        match parse_create_reply(line.as_str()) {
            Ok(()) => {},
            Err(e) => {
                return Err(e);
            },
        }
        let me = lookup(&mut socket, "ME");
        let local = match destination_from_lookup(me) {
            Ok(d) => d,
            Err(e) => {
                return Err(e);
            },
        };
        proof {
            let reply = choose|reply: Seq<char>| #[trigger] lookup_reply(reply) == pair_view(me);
            assert(own_destination(lookup_reply(reply)) == Ok::<_, I2pError>(local@));
        }
        Ok(I2pSession { socket, nick, local })
    }

    /// Closes the session. Nothing is sent: the router drops the session when
    /// its control connection closes.
    pub fn destroy(&self) -> (r: Result<(), I2pError>)
        ensures
            r is Ok,
    {
        Ok(())
    }
}

} // verus!
