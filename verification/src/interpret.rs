//! The response interpreter. The provider answers every update request with
//! HTTP 200 and an XML body; whether the update really succeeded is encoded
//! inside that body as a numeric error count plus zero or more freeform
//! message tags. The interpreter scans the XML, aggregates those fields, and
//! classifies the reply as success or failure with diagnostic messages.
//!
//! The error count is the sole source of truth: a count of zero (or an absent
//! count field) is a success even when message tags are present, and any
//! positive count is a failure even when none are — in that case one message
//! naming the count is synthesized, so a failure never goes unexplained.

use vstd::prelude::*;
use vstd::string::StrSliceExecFns;
use vstd::string::StringExecFns;
use crate::text::{
    trim_spec, trim, has_prefix, starts_with_str, str_eq, parses_as_u32, u32_value, parse_u32,
    dec_str, u32_to_string,
};
use crate::xml::{Token, XmlEvent, tokens, scan_tokens};

verus! {

/// The interpreter's verdict, at the specification level.
pub enum Outcome {
    Success,
    Failure { messages: Seq<Seq<char>> },
}

/// The interpreter's verdict on one update reply. A failure always carries
/// at least one message.
pub enum UpdateOutcome {
    Success,
    Failure { messages: Vec<String> },
}

impl View for UpdateOutcome {
    type V = Outcome;

    open spec fn view(&self) -> Outcome {
        match self {
            UpdateOutcome::Success => Outcome::Success,
            UpdateOutcome::Failure { messages } => Outcome::Failure {
                messages: messages.deep_view(),
            },
        }
    }
}

/// The aggregation state while the events of a reply are folded, one by one.
pub struct ScanState {
    /// Names of the elements that are open, outermost first.
    pub stack: Seq<Seq<char>>,
    /// Name of the tag a text node would belong to: set by a start tag,
    /// cleared by an end tag.
    pub cursor: Option<Seq<char>>,
    /// The last error count parsed, if the field was seen at all.
    pub count: Option<u32>,
    /// Texts of the numbered error tags, in document order.
    pub errors: Seq<Seq<char>>,
    /// Texts of the description tags, in document order.
    pub descriptions: Seq<Seq<char>>,
    /// Texts of the response-string tags, in document order.
    pub responses: Seq<Seq<char>>,
}

/// The state before any event.
pub open spec fn initial_state() -> ScanState {
    ScanState {
        stack: Seq::empty(),
        cursor: None,
        count: None,
        errors: Seq::empty(),
        descriptions: Seq::empty(),
        responses: Seq::empty(),
    }
}

/// How one non-empty text `t` under the open tag `tag` changes the state.
pub open spec fn classify_text(st: ScanState, tag: Seq<char>, t: Seq<char>) -> ScanState {
    if tag == "ErrCount"@ {
        if parses_as_u32(t) {
            ScanState { count: Some(u32_value(t) as u32), ..st }
        } else {
            st
        }
    } else if has_prefix(tag, "Err"@) {
        ScanState { errors: st.errors.push(t), ..st }
    } else if tag == "Description"@ {
        ScanState { descriptions: st.descriptions.push(t), ..st }
    } else if tag == "ResponseString"@ {
        ScanState { responses: st.responses.push(t), ..st }
    } else {
        st
    }
}

/// How one event changes the state; `None` on a mismatched end tag.
pub open spec fn step_state(st: ScanState, e: Token) -> Option<ScanState> {
    match e {
        Token::Start { name } => Some(
            ScanState { stack: st.stack.push(name), cursor: Some(name), ..st },
        ),
        Token::End { name } => if st.stack.len() > 0 && st.stack.last() == name {
            Some(ScanState { stack: st.stack.drop_last(), cursor: None, ..st })
        } else {
            None
        },
        Token::Text { text } => {
            let t = trim_spec(text);
            if t.len() == 0 {
                Some(st)
            } else {
                match st.cursor {
                    None => Some(st),
                    Some(tag) => Some(classify_text(st, tag, t)),
                }
            }
        },
    }
}

/// The state after all of `evs`, or `None` once a step fails.
pub open spec fn run_events(st: ScanState, evs: Seq<Token>) -> Option<ScanState>
    decreases evs.len(),
{
    if evs.len() == 0 {
        Some(st)
    } else {
        match step_state(st, evs[0]) {
            None => None,
            Some(st2) => run_events(st2, evs.drop_first()),
        }
    }
}

/// A run splits at any index: fold the prefix, then fold the rest from there.
pub proof fn lemma_run_events_split(st: ScanState, evs: Seq<Token>, i: int)
    requires
        0 <= i <= evs.len(),
    ensures
        run_events(st, evs) == match run_events(st, evs.take(i)) {
            None => None::<ScanState>,
            Some(m) => run_events(m, evs.skip(i)),
        },
    decreases i,
{
    if i == 0 {
        assert(evs.take(0) =~= Seq::<Token>::empty());
        assert(evs.skip(0) =~= evs);
    } else {
        assert(evs.take(i)[0] == evs[0]);
        match step_state(st, evs[0]) {
            None => {
                assert(run_events(st, evs.take(i)) is None);
            },
            Some(st1) => {
                assert(evs.take(i).drop_first() =~= evs.drop_first().take(i - 1));
                assert(evs.drop_first().skip(i - 1) =~= evs.skip(i));
                lemma_run_events_split(st1, evs.drop_first(), i - 1);
            },
        }
    }
}

/// Extending the folded prefix by one event applies one step.
pub proof fn lemma_run_events_snoc(st: ScanState, evs: Seq<Token>, i: int)
    requires
        0 <= i < evs.len(),
    ensures
        run_events(st, evs.take(i + 1)) == match run_events(st, evs.take(i)) {
            None => None::<ScanState>,
            Some(m) => step_state(m, evs[i]),
        },
{
    let pre = evs.take(i + 1);
    assert(pre.take(i) =~= evs.take(i));
    assert(pre.skip(i) =~= seq![evs[i]]);
    lemma_run_events_split(st, pre, i);
    match run_events(st, evs.take(i)) {
        None => {},
        Some(m) => {
            let single = seq![evs[i]];
            assert(single[0] == evs[i]);
            match step_state(m, evs[i]) {
                None => {
                    assert(run_events(m, single) is None);
                },
                Some(st2) => {
                    assert(single.drop_first() =~= Seq::<Token>::empty());
                    assert(run_events(st2, single.drop_first()) == Some(st2));
                    assert(run_events(m, single) == Some(st2));
                },
            }
        },
    }
}

/// The effective error count: the last one parsed, or zero when the field
/// never appeared.
pub open spec fn effective_count(st: ScanState) -> u32 {
    match st.count {
        Some(c) => c,
        None => 0,
    }
}

/// All extracted messages: error tags, then descriptions, then response
/// strings, concatenated in that order.
pub open spec fn collected_messages(st: ScanState) -> Seq<Seq<char>> {
    st.errors + st.descriptions + st.responses
}

/// The message synthesized when the count is positive but no message tag
/// gave any detail.
pub open spec fn synthetic_message(c: u32) -> Seq<char> {
    "provider reported ErrCount="@ + dec_str(c as int) + " but no error messages were found"@
}

/// The message attached to a reply whose XML cannot be parsed.
pub open spec fn parse_failure_message() -> Seq<char> {
    "failed to parse the provider's XML response"@
}

/// The verdict on a fully folded state.
pub open spec fn outcome_of_state(st: ScanState) -> Outcome {
    if effective_count(st) == 0 {
        Outcome::Success
    } else if collected_messages(st).len() == 0 {
        Outcome::Failure { messages: seq![synthetic_message(effective_count(st))] }
    } else {
        Outcome::Failure { messages: collected_messages(st) }
    }
}

/// The verdict on a whole reply body: a parse failure when the XML is
/// malformed, an end tag mismatches, or an element never closes; otherwise
/// the verdict of the folded state.
pub open spec fn interpret_spec(s: Seq<char>) -> Outcome {
    match tokens(s) {
        None => Outcome::Failure { messages: seq![parse_failure_message()] },
        Some(evs) => match run_events(initial_state(), evs) {
            None => Outcome::Failure { messages: seq![parse_failure_message()] },
            Some(st) => if st.stack.len() > 0 {
                Outcome::Failure { messages: seq![parse_failure_message()] }
            } else {
                outcome_of_state(st)
            },
        },
    }
}

/// A failure is never silent: whatever the body, a failure verdict carries
/// at least one message — extracted ones, the synthesized count message, or
/// the parse-failure message.
pub proof fn lemma_failure_never_silent(s: Seq<char>)
    ensures
        interpret_spec(s) matches Outcome::Failure { messages } ==> messages.len() > 0,
{
}

/// The declared error count is the sole source of truth: on a well-formed
/// body the verdict is success exactly when the effective count — the last
/// parsed value, or zero when the field never appeared — is zero, whatever
/// message tags were present.
pub proof fn lemma_count_decides(s: Seq<char>)
    requires
        tokens(s) is Some,
        run_events(initial_state(), tokens(s)->0) is Some,
        run_events(initial_state(), tokens(s)->0)->0.stack.len() == 0,
    ensures
        interpret_spec(s) is Success <==> effective_count(
            run_events(initial_state(), tokens(s)->0)->0,
        ) == 0,
{
}

/// View of an optional owned tag name.
pub open spec fn cursor_view(c: Option<String>) -> Option<Seq<char>> {
    match c {
        Some(t) => Some(t@),
        None => None,
    }
}

/// The one-element failure carrying the parse-failure message.
fn parse_failure() -> (r: UpdateOutcome)
    ensures
        r@ == (Outcome::Failure { messages: seq![parse_failure_message()] }),
{
    let mut messages: Vec<String> = Vec::new();
    messages.push(String::from_str("failed to parse the provider's XML response"));
    proof {
        assert(messages.deep_view() =~= seq![parse_failure_message()]);
    }
    UpdateOutcome::Failure { messages }
}

/// Interprets one update reply body, exactly as `interpret_spec` states:
/// success iff the declared error count is zero or absent, failure with the
/// collected or synthesized messages otherwise, and a parse failure on
/// malformed XML — never a crash.
pub fn interpret_response(body: &str) -> (r: UpdateOutcome)
    ensures
        r@ == interpret_spec(body@),
{
    let toks: Vec<XmlEvent> = match scan_tokens(body) {
        None => {
            return parse_failure();
        },
        Some(t) => t,
    };
    let ghost evs: Seq<Token> = toks.deep_view();
    let n: usize = toks.len();
    let mut stack: Vec<String> = Vec::new();
    let mut cursor: Option<String> = None;
    let mut count: Option<u32> = None;
    let mut errors: Vec<String> = Vec::new();
    let mut descriptions: Vec<String> = Vec::new();
    let mut responses: Vec<String> = Vec::new();
    let mut idx: usize = 0;
    proof {
        assert(evs.take(0) =~= Seq::<Token>::empty());
        assert(stack.deep_view() =~= Seq::<Seq<char>>::empty());
        assert(errors.deep_view() =~= Seq::<Seq<char>>::empty());
        assert(descriptions.deep_view() =~= Seq::<Seq<char>>::empty());
        assert(responses.deep_view() =~= Seq::<Seq<char>>::empty());
    }
    while idx < n
        invariant
            0 <= idx <= n,
            n == evs.len(),
            evs == toks.deep_view(),
            tokens(body@) == Some(evs),
            run_events(initial_state(), evs.take(idx as int)) == Some(
                ScanState {
                    stack: stack.deep_view(),
                    cursor: cursor_view(cursor),
                    count: count,
                    errors: errors.deep_view(),
                    descriptions: descriptions.deep_view(),
                    responses: responses.deep_view(),
                },
            ),
        decreases n - idx,
    {
        let ghost pre = ScanState {
            stack: stack.deep_view(),
            cursor: cursor_view(cursor),
            count: count,
            errors: errors.deep_view(),
            descriptions: descriptions.deep_view(),
            responses: responses.deep_view(),
        };
        proof {
            lemma_run_events_snoc(initial_state(), evs, idx as int);
        }
        let ev = &toks[idx];
        proof {
            assert(evs[idx as int] == ev.deep_view());
        }
        match ev {
            XmlEvent::Start { name } => {
                stack.push(name.clone());
                cursor = Some(name.clone());
                proof {
                    assert(stack.deep_view() =~= pre.stack.push(name@));
                    assert(step_state(pre, evs[idx as int]) == Some(
                        ScanState { stack: pre.stack.push(name@), cursor: Some(name@), ..pre },
                    ));
                }
            },
            XmlEvent::End { name } => {
                if stack.len() == 0 {
                    proof {
                        assert(pre.stack.len() == 0);
                        assert(step_state(pre, evs[idx as int]) is None);
                        lemma_run_events_split(initial_state(), evs, idx + 1);
                    }
                    return parse_failure();
                }
                proof {
                    assert(pre.stack.len() > 0);
                    assert(pre.stack.last() == stack@[stack@.len() - 1]@);
                }
                let top = stack.pop().unwrap();
                if !str_eq(top.as_str(), name.as_str()) {
                    proof {
                        assert(pre.stack.last() != name@);
                        assert(step_state(pre, evs[idx as int]) is None);
                        lemma_run_events_split(initial_state(), evs, idx + 1);
                    }
                    return parse_failure();
                }
                cursor = None;
                proof {
                    assert(stack.deep_view() =~= pre.stack.drop_last());
                    assert(step_state(pre, evs[idx as int]) == Some(
                        ScanState { stack: pre.stack.drop_last(), cursor: None, ..pre },
                    ));
                }
            },
            XmlEvent::Text { text } => {
                let t = trim(text.as_str());
                let ghost ts = trim_spec(text@);
                if t.unicode_len() > 0 {
                    match &cursor {
                        None => {
                            assert(step_state(pre, evs[idx as int]) == Some(pre));
                        },
                        Some(tag) => {
                            if str_eq(tag.as_str(), "ErrCount") {
                                match parse_u32(t) {
                                    Some(v) => {
                                        count = Some(v);
                                        proof {
                                            assert(u32_value(ts) as u32 == v);
                                            assert(classify_text(pre, tag@, ts) == ScanState {
                                                count: Some(v),
                                                ..pre
                                            });
                                        }
                                    },
                                    None => {
                                        assert(classify_text(pre, tag@, ts) == pre);
                                    },
                                }
                            } else if starts_with_str(tag.as_str(), "Err") {
                                errors.push(String::from_str(t));
                                proof {
                                    assert(errors.deep_view() =~= pre.errors.push(ts));
                                    assert(classify_text(pre, tag@, ts) == ScanState {
                                        errors: pre.errors.push(ts),
                                        ..pre
                                    });
                                }
                            } else if str_eq(tag.as_str(), "Description") {
                                descriptions.push(String::from_str(t));
                                proof {
                                    assert(descriptions.deep_view() =~= pre.descriptions.push(ts));
                                }
                            } else if str_eq(tag.as_str(), "ResponseString") {
                                responses.push(String::from_str(t));
                                proof {
                                    assert(responses.deep_view() =~= pre.responses.push(ts));
                                }
                            } else {
                                assert(classify_text(pre, tag@, ts) == pre);
                            }
                        },
                    }
                } else {
                    assert(step_state(pre, evs[idx as int]) == Some(pre));
                }
            },
        }
        idx = idx + 1;
    }
    proof {
        assert(evs.take(n as int) =~= evs);
        if stack.deep_view().len() == 0 {
            assert(run_events(initial_state(), evs) is Some);
        }
    }
    if stack.len() > 0 {
        return parse_failure();
    }
    let c: u32 = match count {
        Some(v) => v,
        None => 0,
    };
    let ghost folded = run_events(initial_state(), evs)->0;
    if c == 0 {
        return UpdateOutcome::Success;
    }
    let mut messages: Vec<String> = errors;
    messages.append(&mut descriptions);
    messages.append(&mut responses);
    proof {
        assert(messages.deep_view() =~= collected_messages(folded));
    }
    if messages.len() == 0 {
        let mut msg = String::from_str("provider reported ErrCount=");
        let num = u32_to_string(c);
        msg.append(num.as_str());
        msg.append(" but no error messages were found");
        messages.push(msg);
        proof {
            assert(messages.deep_view() =~= seq![synthetic_message(c)]);
        }
        return UpdateOutcome::Failure { messages };
    }
    UpdateOutcome::Failure { messages }
}

/// `msgs[0] + sep + msgs[1] + sep + ...`, the empty sequence when there is
/// no message.
pub open spec fn join_spec(msgs: Seq<Seq<char>>, sep: Seq<char>) -> Seq<char>
    decreases msgs.len(),
{
    if msgs.len() == 0 {
        Seq::empty()
    } else if msgs.len() == 1 {
        msgs[0]
    } else {
        msgs[0] + sep + join_spec(msgs.drop_first(), sep)
    }
}

proof fn lemma_join_push(msgs: Seq<Seq<char>>, sep: Seq<char>, m: Seq<char>)
    requires
        msgs.len() > 0,
    ensures
        join_spec(msgs.push(m), sep) == join_spec(msgs, sep) + sep + m,
    decreases msgs.len(),
{
    if msgs.len() == 1 {
        assert(join_spec(msgs.push(m), sep) == msgs.push(m)[0] + sep + join_spec(
            msgs.push(m).drop_first(),
            sep,
        ));
        assert(msgs.push(m).drop_first() =~= seq![m]);
        assert(join_spec(seq![m], sep) == m);
    } else {
        assert(msgs.push(m).drop_first() =~= msgs.drop_first().push(m));
        lemma_join_push(msgs.drop_first(), sep, m);
        assert(join_spec(msgs, sep) == msgs[0] + sep + join_spec(msgs.drop_first(), sep));
        assert(join_spec(msgs.push(m), sep) == msgs[0] + sep + join_spec(
            msgs.drop_first().push(m),
            sep,
        ));
        assert(msgs[0] + sep + (join_spec(msgs.drop_first(), sep) + sep + m) =~= (msgs[0] + sep
            + join_spec(msgs.drop_first(), sep)) + sep + m);
    }
}

/// The messages joined by `sep`, for one log line.
pub fn join_messages(msgs: &Vec<String>, sep: &str) -> (r: String)
    ensures
        r@ == join_spec(msgs.deep_view(), sep@),
{
    let mut out = String::new();
    let n: usize = msgs.len();
    let mut i: usize = 0;
    while i < n
        invariant
            0 <= i <= n,
            n == msgs.deep_view().len(),
            n == msgs@.len(),
            out@ == join_spec(msgs.deep_view().take(i as int), sep@),
        decreases n - i,
    {
        if i > 0 {
            out.append(sep);
        }
        out.append(msgs[i].as_str());
        proof {
            let pre = msgs.deep_view().take(i + 1);
            assert(pre =~= msgs.deep_view().take(i as int).push(msgs.deep_view()[i as int]));
            if i > 0 {
                lemma_join_push(msgs.deep_view().take(i as int), sep@, msgs.deep_view()[i as int]);
            } else {
                assert(pre.len() == 1);
                assert(join_spec(pre, sep@) == pre[0]);
                assert(out@ =~= pre[0]);
            }
            assert(msgs.deep_view()[i as int] == msgs@[i as int]@);
        }
        i = i + 1;
    }
    proof {
        assert(msgs.deep_view().take(n as int) =~= msgs.deep_view());
    }
    out
}

} // verus!
