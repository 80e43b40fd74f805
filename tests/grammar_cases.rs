use sam_reply::grammar::{ReplyError, ReplyErrorKind};
use sam_reply::parsers::{
    is_double_quote, is_key_char, is_next_line, is_space, is_space_or_next_line, sam_dest_reply,
    sam_hello, sam_naming_reply, sam_session_status, sam_stream_status,
};

fn failure(kind: ReplyErrorKind, position: usize) -> ReplyError {
    ReplyError { kind, position }
}

#[test]
fn classifiers() {
    assert!(is_space(' '));
    assert!(is_space('\t'));
    assert!(!is_space('\n'));
    assert!(!is_space('a'));
    assert!(is_next_line('\n'));
    assert!(!is_next_line(' '));
    assert!(is_space_or_next_line(' '));
    assert!(is_space_or_next_line('\t'));
    assert!(is_space_or_next_line('\n'));
    assert!(!is_space_or_next_line('\r'));
    assert!(!is_space_or_next_line('x'));
    assert!(is_double_quote('"'));
    assert!(!is_double_quote('\''));
    assert!(is_key_char('a'));
    assert!(is_key_char('Z'));
    assert!(is_key_char('7'));
    assert!(!is_key_char('_'));
    assert!(!is_key_char('-'));
    assert!(!is_key_char('é'));
}

#[test]
fn written_line_reads_back_in_order() {
    assert_eq!(
        sam_session_status("SESSION STATUS A=1 B=2 C=3 D=4\n"),
        Ok(("", vec![("A", "1"), ("B", "2"), ("C", "3"), ("D", "4")]))
    );
}

#[test]
fn quoted_value_keeps_inner_spaces() {
    assert_eq!(
        sam_hello("HELLO REPLY MESSAGE=\"  two  spaces \tand tab\"\n"),
        Ok(("", vec![("MESSAGE", "  two  spaces \tand tab")]))
    );
    assert_eq!(
        sam_hello("HELLO REPLY MESSAGE=\"\" RESULT=OK\n"),
        Ok(("", vec![("MESSAGE", ""), ("RESULT", "OK")]))
    );
}

#[test]
fn quoted_value_with_wide_characters() {
    assert_eq!(
        sam_hello("HELLO REPLY MESSAGE=\"héllo wörld\" RESULT=OK\n"),
        Ok(("", vec![("MESSAGE", "héllo wörld"), ("RESULT", "OK")]))
    );
}

#[test]
fn key_without_equals_is_rejected() {
    assert_eq!(
        sam_hello("HELLO REPLY RESULT\n"),
        Err(failure(ReplyErrorKind::MalformedPair, 18))
    );
    assert_eq!(
        sam_hello("HELLO REPLY RESULT OK\n"),
        Err(failure(ReplyErrorKind::MalformedPair, 18))
    );
    assert_eq!(
        sam_hello("HELLO REPLY RESULT_CODE=OK\n"),
        Err(failure(ReplyErrorKind::MalformedPair, 18))
    );
}

#[test]
fn later_malformed_pair_leaves_line_unfinished() {
    assert_eq!(
        sam_hello("HELLO REPLY RESULT=OK BAD\n"),
        Err(failure(ReplyErrorKind::MissingNewline, 21))
    );
}

#[test]
fn verb_mismatch_is_rejected_at_start() {
    assert_eq!(
        sam_naming_reply("NAMINGREPLY RESULT=KEY_NOT_FOUND\n"),
        Err(failure(ReplyErrorKind::Tag, 0))
    );
    assert_eq!(
        sam_naming_reply("NAMING  REPLY RESULT=KEY_NOT_FOUND\n"),
        Err(failure(ReplyErrorKind::Tag, 0))
    );
    assert_eq!(
        sam_hello("HELLO REPLYRESULT=OK\n"),
        Err(failure(ReplyErrorKind::Tag, 0))
    );
    assert_eq!(sam_dest_reply("DEST"), Err(failure(ReplyErrorKind::Tag, 0)));
    assert_eq!(sam_stream_status(""), Err(failure(ReplyErrorKind::Tag, 0)));
    assert_eq!(
        sam_stream_status("SESSION STATUS RESULT=OK\n"),
        Err(failure(ReplyErrorKind::Tag, 0))
    );
}

#[test]
fn unterminated_quote_is_rejected() {
    assert_eq!(
        sam_hello("HELLO REPLY MESSAGE=\"abc\n"),
        Err(failure(ReplyErrorKind::UnterminatedQuote, 20))
    );
    assert_eq!(
        sam_hello("HELLO REPLY RESULT=OK MESSAGE=\"abc def\n"),
        Err(failure(ReplyErrorKind::UnterminatedQuote, 30))
    );
}

#[test]
fn empty_pair_list_is_rejected() {
    assert_eq!(
        sam_hello("HELLO REPLY \n"),
        Err(failure(ReplyErrorKind::EmptyPairList, 12))
    );
    assert_eq!(
        sam_hello("HELLO REPLY "),
        Err(failure(ReplyErrorKind::EmptyPairList, 12))
    );
    assert_eq!(
        sam_hello("HELLO REPLY =OK\n"),
        Err(failure(ReplyErrorKind::EmptyPairList, 12))
    );
}

#[test]
fn missing_newline_is_rejected() {
    assert_eq!(
        sam_hello("HELLO REPLY RESULT=OK"),
        Err(failure(ReplyErrorKind::MissingNewline, 21))
    );
    assert_eq!(
        sam_hello("HELLO REPLY RESULT=OK \n"),
        Err(failure(ReplyErrorKind::MissingNewline, 21))
    );
    assert_eq!(
        sam_hello("HELLO REPLY MESSAGE=\"a b\"x\n"),
        Err(failure(ReplyErrorKind::MissingNewline, 25))
    );
}

#[test]
fn empty_unquoted_value() {
    assert_eq!(
        sam_hello("HELLO REPLY RESULT= VERSION=\n"),
        Ok(("", vec![("RESULT", ""), ("VERSION", "")]))
    );
}

#[test]
fn separator_runs_collapse() {
    assert_eq!(
        sam_dest_reply("DEST REPLY PUB=foo \t  PRIV=foobar\n"),
        Ok(("", vec![("PUB", "foo"), ("PRIV", "foobar")]))
    );
    assert_eq!(
        sam_dest_reply("DEST REPLY PUB=foo\nPRIV=foobar\n"),
        Ok(("", vec![("PUB", "foo"), ("PRIV", "foobar")]))
    );
}

#[test]
fn duplicate_keys_are_kept() {
    assert_eq!(
        sam_naming_reply("NAMING REPLY NAME=a NAME=b\n"),
        Ok(("", vec![("NAME", "a"), ("NAME", "b")]))
    );
}

#[test]
fn leftover_after_newline() {
    assert_eq!(
        sam_hello("HELLO REPLY RESULT=OK\nHELLO REPLY"),
        Ok(("HELLO REPLY", vec![("RESULT", "OK")]))
    );
}

#[test]
fn quote_inside_unquoted_value() {
    assert_eq!(
        sam_hello("HELLO REPLY VERSION=3\"1\n"),
        Ok(("", vec![("VERSION", "3\"1")]))
    );
}
