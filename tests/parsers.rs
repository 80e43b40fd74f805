use sam_reply::grammar::{ReplyError, ReplyErrorKind};
use sam_reply::parsers::{
    sam_dest_reply, sam_hello, sam_naming_reply, sam_session_status, sam_stream_status,
};

fn err_kind(err: ReplyError) -> ReplyErrorKind {
    err.kind
}

#[test]
fn hello() {
    assert_eq!(
        sam_hello("HELLO REPLY RESULT=OK VERSION=3.1\n"),
        Ok(("", vec![("RESULT", "OK"), ("VERSION", "3.1")]))
    );
    assert_eq!(
        sam_hello("HELLO REPLY RESULT=NOVERSION\n"),
        Ok(("", vec![("RESULT", "NOVERSION")]))
    );
    assert_eq!(
        sam_hello("HELLO REPLY RESULT=I2P_ERROR MESSAGE=\"Something failed\"\n"),
        Ok((
            "",
            vec![("RESULT", "I2P_ERROR"), ("MESSAGE", "Something failed")]
        ))
    );
}

#[test]
fn session_status() {
    assert_eq!(
        sam_session_status("SESSION STATUS RESULT=OK DESTINATION=privkey\n"),
        Ok(("", vec![("RESULT", "OK"), ("DESTINATION", "privkey")]))
    );
    assert_eq!(
        sam_session_status("SESSION STATUS RESULT=DUPLICATED_ID\n"),
        Ok(("", vec![("RESULT", "DUPLICATED_ID")]))
    );
}

#[test]
fn stream_status() {
    assert_eq!(
        sam_stream_status("STREAM STATUS RESULT=OK\n"),
        Ok(("", vec![("RESULT", "OK")]))
    );
    assert_eq!(
        sam_stream_status("STREAM STATUS RESULT=CANT_REACH_PEER MESSAGE=\"Can't reach peer\"\n"),
        Ok((
            "",
            vec![("RESULT", "CANT_REACH_PEER"), ("MESSAGE", "Can't reach peer")]
        ))
    );
}

#[test]
fn naming_reply() {
    assert_eq!(
        sam_naming_reply("NAMING REPLY RESULT=OK NAME=name VALUE=dest\n"),
        Ok((
            "",
            vec![("RESULT", "OK"), ("NAME", "name"), ("VALUE", "dest")]
        ))
    );
    assert_eq!(
        sam_naming_reply("NAMING REPLY RESULT=KEY_NOT_FOUND\n"),
        Ok(("", vec![("RESULT", "KEY_NOT_FOUND")]))
    );

    assert_eq!(
        err_kind(sam_naming_reply("NAMINGREPLY RESULT=KEY_NOT_FOUND\n").unwrap_err()),
        ReplyErrorKind::Tag
    );

    assert_eq!(
        err_kind(sam_naming_reply("NAMING  REPLY RESULT=KEY_NOT_FOUND\n").unwrap_err()),
        ReplyErrorKind::Tag
    );
}

#[test]
fn dest_reply() {
    assert_eq!(
        sam_dest_reply("DEST REPLY PUB=foo PRIV=foobar\n"),
        Ok(("", vec![("PUB", "foo"), ("PRIV", "foobar")]))
    );
}
