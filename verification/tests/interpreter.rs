//! The response interpreter: the declared error count decides, messages are
//! best-effort diagnostics, malformed XML is a failure, never a crash.

use namecheap_ddns::interpret::{interpret_response, join_messages, UpdateOutcome};

fn failure_messages(out: UpdateOutcome) -> Vec<String> {
    match out {
        UpdateOutcome::Failure { messages } => messages,
        UpdateOutcome::Success => panic!("expected a failure"),
    }
}

#[test]
fn zero_count_is_success_despite_description() {
    let xml = "<interface-response><ErrCount>0</ErrCount>\
               <Description>Informational text</Description></interface-response>";
    assert!(matches!(interpret_response(xml), UpdateOutcome::Success));
}

#[test]
fn missing_count_is_success() {
    let xml = "<interface-response><IP>1.2.3.4</IP></interface-response>";
    assert!(matches!(interpret_response(xml), UpdateOutcome::Success));
}

#[test]
fn empty_body_is_success() {
    assert!(matches!(interpret_response(""), UpdateOutcome::Success));
}

#[test]
fn numbered_errors_in_document_order() {
    let xml = "<ErrCount>2</ErrCount><Err1>bad host</Err1><Err2>bad domain</Err2>";
    let messages = failure_messages(interpret_response(xml));
    assert_eq!(messages, vec!["bad host".to_string(), "bad domain".to_string()]);
}

#[test]
fn bare_count_synthesizes_one_message() {
    let xml = "<ErrCount>1</ErrCount>";
    let messages = failure_messages(interpret_response(xml));
    assert_eq!(messages.len(), 1);
    assert_eq!(
        messages[0],
        "provider reported ErrCount=1 but no error messages were found"
    );
    assert!(messages[0].contains('1'));
}

#[test]
fn unterminated_tag_is_a_parse_failure() {
    let messages = failure_messages(interpret_response("<ErrCount>1"));
    assert_eq!(messages, vec!["failed to parse the provider's XML response".to_string()]);
}

#[test]
fn unclosed_element_is_a_parse_failure() {
    let messages = failure_messages(interpret_response("<a><b>text</b>"));
    assert_eq!(messages, vec!["failed to parse the provider's XML response".to_string()]);
}

#[test]
fn mismatched_end_tag_is_a_parse_failure() {
    let messages = failure_messages(interpret_response("<a><b></a></b>"));
    assert_eq!(messages, vec!["failed to parse the provider's XML response".to_string()]);
}

#[test]
fn message_collections_concatenate_in_order() {
    let xml = "<ErrCount>3</ErrCount><ResponseString>r</ResponseString>\
               <Description>d</Description><Err1>a</Err1>";
    let messages = failure_messages(interpret_response(xml));
    assert_eq!(messages, vec!["a".to_string(), "d".to_string(), "r".to_string()]);
}

#[test]
fn last_count_wins() {
    let xml = "<ErrCount>2</ErrCount><ErrCount>0</ErrCount>";
    assert!(matches!(interpret_response(xml), UpdateOutcome::Success));
    let xml = "<ErrCount>0</ErrCount><ErrCount>2</ErrCount>";
    assert!(matches!(interpret_response(xml), UpdateOutcome::Failure { .. }));
}

#[test]
fn unparsable_count_reads_as_absent() {
    let xml = "<ErrCount>many</ErrCount>";
    assert!(matches!(interpret_response(xml), UpdateOutcome::Success));
}

#[test]
fn text_outside_any_open_tag_is_ignored() {
    let xml = "<a><b>x</b>stray</a><ErrCount>0</ErrCount>";
    assert!(matches!(interpret_response(xml), UpdateOutcome::Success));
}

#[test]
fn declaration_comment_and_cdata_are_skipped() {
    let xml = "<?xml version=\"1.0\"?><!-- a comment --><interface-response>\
               <![CDATA[<ErrCount>9</ErrCount>]]>\
               <ErrCount>0</ErrCount><Done/></interface-response>";
    assert!(matches!(interpret_response(xml), UpdateOutcome::Success));
}

#[test]
fn attributes_do_not_disturb_the_scan() {
    let xml = "<interface-response kind=\"a>b\"><ErrCount>1</ErrCount>\
               <Err1 lang=\"en\">wrong password</Err1></interface-response>";
    let messages = failure_messages(interpret_response(xml));
    assert_eq!(messages, vec!["wrong password".to_string()]);
}

#[test]
fn whitespace_around_texts_is_trimmed() {
    let xml = "<ErrCount>\n  1  \n</ErrCount><Err1>\n  bad host  \n</Err1>";
    let messages = failure_messages(interpret_response(xml));
    assert_eq!(messages, vec!["bad host".to_string()]);
}

#[test]
fn join_messages_uses_the_separator() {
    let msgs = vec!["a".to_string(), "b".to_string(), "c".to_string()];
    assert_eq!(join_messages(&msgs, "; "), "a; b; c");
    assert_eq!(join_messages(&vec!["only".to_string()], "; "), "only");
    assert_eq!(join_messages(&Vec::new(), "; "), "");
}
