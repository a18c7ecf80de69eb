use i2p_sam::cmd::naming::{lookup, lookup_request, naming_status, parse_lookup_reply, NamingStatus};
use i2p_sam::error::I2pError;
use i2p_sam::exchange::{exchange, Transport};

/// An in-memory SAM gateway: each instance stands for one control
/// connection and owns one destination of its own.
struct Gateway {
    own: String,
    pending: Option<String>,
    fail_write: bool,
    fail_read: bool,
    sent: Vec<String>,
}

impl Gateway {
    fn connect(own: &str) -> Gateway {
        Gateway {
            own: own.to_string(),
            pending: None,
            fail_write: false,
            fail_read: false,
            sent: Vec::new(),
        }
    }

    fn answer(&self, line: &str) -> String {
        let name = line
            .trim_end()
            .strip_prefix("NAMING LOOKUP NAME=")
            .unwrap_or("")
            .to_string();
        if name == "ME" {
            format!("NAMING REPLY RESULT=OK NAME=ME VALUE={}\n", self.own)
        } else if name == "zzz.i2p" {
            "NAMING REPLY RESULT=OK NAME=zzz.i2p VALUE=ABCD~-xyz0123==\n".to_string()
        } else if name.ends_with(".b32.i2p") {
            format!("NAMING REPLY RESULT=KEY_NOT_FOUND NAME={}\n", name)
        } else {
            format!("NAMING REPLY RESULT=INVALID_KEY NAME={}\n", name)
        }
    }
}

impl Transport for Gateway {
    fn write_line(&mut self, line: &str) -> bool {
        if self.fail_write {
            return false;
        }
        self.sent.push(line.to_string());
        self.pending = Some(self.answer(line));
        true
    }

    fn read_line(&mut self) -> Option<String> {
        if self.fail_read {
            return None;
        }
        self.pending.take()
    }
}

#[test]
fn test_lookup() {
    let mut socket = Gateway::connect("LOCALDEST1~");

    // zzz.i2p exists
    assert_eq!(lookup(&mut socket, "zzz.i2p").unwrap().0, "zzz.i2p".to_string(),);

    assert_eq!(
        lookup(&mut socket, "abcdefghijklmnopqrstuvwxyz234567abcdefghijklmnopqrst.b32.i2p"),
        Err(I2pError::DoesntExist)
    );
}

#[test]
fn test_lookup_same_socket() {
    let mut socket = Gateway::connect("LOCALDEST1~");

    assert_eq!(lookup(&mut socket, "ME"), lookup(&mut socket, "ME"),);
}

#[test]
fn test_lookup_two_sockets() {
    let mut socket1 = Gateway::connect("LOCALDEST1~");
    let mut socket2 = Gateway::connect("LOCALDEST2~");

    assert_ne!(lookup(&mut socket1, "ME"), lookup(&mut socket2, "ME"),);
}

#[test]
fn lookup_sends_one_naming_line() {
    let mut socket = Gateway::connect("X");
    let r = lookup(&mut socket, "zzz.i2p");
    assert_eq!(
        r,
        Ok(("zzz.i2p".to_string(), "ABCD~-xyz0123==".to_string()))
    );
    assert_eq!(socket.sent, vec!["NAMING LOOKUP NAME=zzz.i2p\n".to_string()]);
}

#[test]
fn lookup_request_text() {
    assert_eq!(lookup_request("zzz.i2p"), "NAMING LOOKUP NAME=zzz.i2p\n");
    assert_eq!(lookup_request("ME"), "NAMING LOOKUP NAME=ME\n");
}

#[test]
fn lookup_write_failure_is_transport_error() {
    let mut socket = Gateway::connect("X");
    socket.fail_write = true;
    assert_eq!(lookup(&mut socket, "zzz.i2p"), Err(I2pError::TcpConnectionError));
    assert!(socket.sent.is_empty());
}

#[test]
fn lookup_read_failure_is_transport_error() {
    let mut socket = Gateway::connect("X");
    socket.fail_read = true;
    assert_eq!(lookup(&mut socket, "zzz.i2p"), Err(I2pError::TcpConnectionError));
    assert_eq!(socket.sent.len(), 1);
}

#[test]
fn exchange_returns_reply_line() {
    let mut socket = Gateway::connect("DEST");
    assert_eq!(
        exchange(&mut socket, "NAMING LOOKUP NAME=ME\n"),
        Ok("NAMING REPLY RESULT=OK NAME=ME VALUE=DEST\n".to_string())
    );
}

#[test]
fn reply_ok_with_name_and_value() {
    assert_eq!(
        parse_lookup_reply("NAMING REPLY RESULT=OK NAME=zzz.i2p VALUE=ABCD...\n"),
        Ok(("zzz.i2p".to_string(), "ABCD...".to_string()))
    );
}

#[test]
fn reply_ok_fields_in_any_order() {
    assert_eq!(
        parse_lookup_reply("NAMING REPLY VALUE=v~1= NAME=a.i2p RESULT=OK"),
        Ok(("a.i2p".to_string(), "v~1=".to_string()))
    );
}

#[test]
fn reply_key_not_found() {
    let addr = "abcdefghijklmnopqrstuvwxyz234567abcdefghijklmnopqrst.b32.i2p";
    let line = format!("NAMING REPLY RESULT=KEY_NOT_FOUND NAME={}\n", addr);
    assert_eq!(parse_lookup_reply(&line), Err(I2pError::DoesntExist));
    assert_eq!(
        parse_lookup_reply("NAMING REPLY RESULT=KEY_NOT_FOUND NAME=x VALUE=y\n"),
        Err(I2pError::DoesntExist)
    );
    assert_eq!(
        parse_lookup_reply("NAMING REPLY RESULT=KEY_NOT_FOUND\n"),
        Err(I2pError::DoesntExist)
    );
}

#[test]
fn reply_invalid_statuses() {
    assert_eq!(
        parse_lookup_reply("NAMING REPLY RESULT=INVALID_KEY NAME=x\n"),
        Err(I2pError::InvalidValue)
    );
    assert_eq!(
        parse_lookup_reply("NAMING REPLY RESULT=INVALID NAME=x\n"),
        Err(I2pError::InvalidValue)
    );
}

#[test]
fn reply_unknown_status_is_invalid() {
    assert_eq!(
        parse_lookup_reply("NAMING REPLY RESULT=I2P_ERROR NAME=x VALUE=y\n"),
        Err(I2pError::InvalidValue)
    );
    assert_eq!(
        parse_lookup_reply("NAMING REPLY RESULT=ok NAME=x VALUE=y\n"),
        Err(I2pError::InvalidValue)
    );
}

#[test]
fn reply_missing_result() {
    assert_eq!(
        parse_lookup_reply("NAMING REPLY NAME=x VALUE=y\n"),
        Err(I2pError::InvalidValue)
    );
}

#[test]
fn reply_missing_name() {
    assert_eq!(
        parse_lookup_reply("NAMING REPLY RESULT=OK VALUE=y\n"),
        Err(I2pError::InvalidValue)
    );
}

#[test]
fn reply_missing_value_reads_empty() {
    assert_eq!(
        parse_lookup_reply("NAMING REPLY RESULT=OK NAME=x\n"),
        Ok(("x".to_string(), String::new()))
    );
    assert_eq!(
        parse_lookup_reply("NAMING REPLY RESULT=OK NAME=x VALUE=\n"),
        Ok(("x".to_string(), String::new()))
    );
}

#[test]
fn reply_with_wrong_header_is_invalid() {
    assert_eq!(
        parse_lookup_reply("SESSION STATUS RESULT=OK NAME=x VALUE=y\n"),
        Err(I2pError::InvalidValue)
    );
    assert_eq!(
        parse_lookup_reply("NAMING LOOKUP RESULT=OK NAME=x VALUE=y\n"),
        Err(I2pError::InvalidValue)
    );
    assert_eq!(parse_lookup_reply(""), Err(I2pError::InvalidValue));
}

#[test]
fn reply_with_bare_word_is_invalid() {
    assert_eq!(
        parse_lookup_reply("NAMING REPLY RESULT=OK NAME=x junk\n"),
        Err(I2pError::InvalidValue)
    );
}

#[test]
fn status_words() {

    assert_eq!(naming_status(&"OK".to_string()), NamingStatus::Found);
    assert_eq!(naming_status(&"KEY_NOT_FOUND".to_string()), NamingStatus::KeyNotFound);
    assert_eq!(naming_status(&"INVALID_KEY".to_string()), NamingStatus::InvalidKey);
    assert_eq!(naming_status(&"INVALID".to_string()), NamingStatus::Invalid);
    assert_eq!(naming_status(&"Ok".to_string()), NamingStatus::Unrecognized);
    assert_eq!(naming_status(&String::new()), NamingStatus::Unrecognized);
}
