//! The boundary to the JSON parser: the linter and the manifest inspector
//! both emit JSON, which an outside parser turns into a tree value; the
//! functions here walk that tree and build the crate's own records. The tree
//! value is opaque to verification, so what the parser and its accessors
//! return is given names; over those names each walk carries a full
//! contract: it succeeds exactly when its input denotes a well-shaped
//! record, and returns exactly the record denoted.
use vstd::prelude::*;

use crate::diagnostics::Annotation;
use crate::diagnostics::AnnotationView;
use crate::diagnostics::Code;
use crate::diagnostics::Match;
use crate::diagnostics::MatchView;
use crate::diagnostics::Message;
use crate::diagnostics::MessageView;
use crate::diagnostics::Span;
use crate::diagnostics::SpanView;
use crate::diagnostics::Text;
use crate::diagnostics::code_chars;

verus! {

#[verifier::external_type_specification]
#[verifier::external_body]
pub struct ExValue(serde_json::Value);

/// Whether a string is a well-formed JSON document; what the outside parser
/// accepts depends on the string alone.
pub uninterp spec fn json_parses(s: Seq<char>) -> bool;

/// The JSON tree that a well-formed document denotes; a function of the
/// string alone.
pub uninterp spec fn json_tree(s: Seq<char>) -> serde_json::Value;

/// What a JSON tree holds under a key, when it is an object with that key.
pub uninterp spec fn tree_get(v: serde_json::Value, key: Seq<char>) -> Option<serde_json::Value>;

/// The characters of a JSON tree that is a string.
pub uninterp spec fn tree_as_str(v: serde_json::Value) -> Option<Seq<char>>;

/// The integer a JSON tree holds, when it is a number representable as u64.
pub uninterp spec fn tree_as_u64(v: serde_json::Value) -> Option<u64>;

/// The elements of a JSON tree that is an array.
pub uninterp spec fn tree_as_array(v: serde_json::Value) -> Option<Seq<serde_json::Value>>;

/// Whether a JSON tree is null.
pub uninterp spec fn tree_is_null(v: serde_json::Value) -> bool;

/// Relies on serde_json::from_str::<Value>: parses a string into a JSON tree
/// value, succeeding exactly on well-formed JSON; the error is rendered as
/// text.
#[verifier::external_body]
pub(crate) fn json_parse(s: &str) -> (r: Result<serde_json::Value, String>)
    ensures
        r is Ok <==> json_parses(s@),
        r matches Ok(v) ==> v == json_tree(s@),
{
    match serde_json::from_str::<serde_json::Value>(s) {
        Ok(v) => Ok(v),
        Err(e) => Err(format!("{e}")),
    }
}

/// Relies on serde_json::Value::get: the value under a key when the tree is
/// an object holding that key, exactly as `tree_get` names it.
#[verifier::external_body]
pub(crate) fn value_get<'a>(v: &'a serde_json::Value, key: &str) -> (r: Option<
    &'a serde_json::Value,
>)
    ensures
        match r {
            Some(f) => tree_get(*v, key@) == Some(*f),
            None => tree_get(*v, key@) is None,
        },
{
    v.get(key)
}

/// Relies on serde_json::Value::as_str: the string when the tree is a JSON
/// string, exactly as `tree_as_str` names it.
#[verifier::external_body]
pub(crate) fn value_as_str(v: &serde_json::Value) -> (r: Option<&str>)
    ensures
        match r {
            Some(s) => tree_as_str(*v) == Some(s@),
            None => tree_as_str(*v) is None,
        },
{
    v.as_str()
}

/// Relies on serde_json::Value::as_u64: the integer when the tree is a JSON
/// number representable as u64, exactly as `tree_as_u64` names it.
#[verifier::external_body]
pub(crate) fn value_as_u64(v: &serde_json::Value) -> (r: Option<u64>)
    ensures
        r == tree_as_u64(*v),
{
    v.as_u64()
}

/// Relies on serde_json::Value::as_array: the elements when the tree is a
/// JSON array, exactly as `tree_as_array` names them.
#[verifier::external_body]
pub(crate) fn value_as_array<'a>(v: &'a serde_json::Value) -> (r: Option<
    &'a Vec<serde_json::Value>,
>)
    ensures
        match r {
            Some(a) => tree_as_array(*v) == Some(a@),
            None => tree_as_array(*v) is None,
        },
{
    v.as_array()
}

/// Relies on serde_json::Value::is_null: whether the tree is JSON null,
/// exactly as `tree_is_null` names it.
#[verifier::external_body]
pub(crate) fn value_is_null(v: &serde_json::Value) -> (r: bool)
    ensures
        r == tree_is_null(*v),
{
    v.is_null()
}

/// What reading a required string field denotes: the field's characters,
/// absent when the key is missing or the field is not a string.
pub open spec fn spec_string(v: serde_json::Value, key: Seq<char>) -> Option<Seq<char>> {
    match tree_get(v, key) {
        Some(f) => tree_as_str(f),
        None => None,
    }
}

/// What reading an optional string field denotes: the outer `None` is a
/// shape error; a missing or null field is `Some(None)`.
pub open spec fn spec_opt_string(v: serde_json::Value, key: Seq<char>) -> Option<
    Option<Seq<char>>,
> {
    match tree_get(v, key) {
        None => Some(None),
        Some(f) => if tree_is_null(f) {
            Some(None)
        } else {
            match tree_as_str(f) {
                Some(s) => Some(Some(s)),
                None => None,
            }
        },
    }
}

/// What reading a required u16 field denotes: absent when the key is
/// missing, the field is not a number, or the number does not fit.
pub open spec fn spec_u16(v: serde_json::Value, key: Seq<char>) -> Option<u16> {
    match tree_get(v, key) {
        Some(f) => match tree_as_u64(f) {
            Some(n) => if n > 0xffff {
                None
            } else {
                Some(n as u16)
            },
            None => None,
        },
        None => None,
    }
}

/// What reading a required array field denotes.
pub open spec fn spec_array(v: serde_json::Value, key: Seq<char>) -> Option<
    Seq<serde_json::Value>,
> {
    match tree_get(v, key) {
        Some(f) => tree_as_array(f),
        None => None,
    }
}

pub(crate) fn get_string(v: &serde_json::Value, key: &str, what: &str) -> (r: Result<
    String,
    String,
>)
    ensures
        r is Ok <==> spec_string(*v, key@) is Some,
        r matches Ok(s) ==> Some(s@) == spec_string(*v, key@),
{
    match value_get(v, key) {
        None => Err(String::from_str("missing string field: ").concat(what)),
        Some(f) => match value_as_str(f) {
            None => Err(String::from_str("field is not a string: ").concat(what)),
            Some(s) => Ok(s.to_owned()),
        },
    }
}

pub(crate) fn get_opt_string(v: &serde_json::Value, key: &str, what: &str) -> (r: Result<
    Option<String>,
    String,
>)
    ensures
        r is Ok <==> spec_opt_string(*v, key@) is Some,
        r matches Ok(s) ==> Some(
            match s {
                Some(x) => Some(x@),
                None => None,
            },
        ) == spec_opt_string(*v, key@),
{
    match value_get(v, key) {
        None => Ok(None),
        Some(f) => {
            if value_is_null(f) {
                Ok(None)
            } else {
                match value_as_str(f) {
                    None => Err(String::from_str("field is not a string: ").concat(what)),
                    Some(s) => Ok(Some(s.to_owned())),
                }
            }
        },
    }
}

fn get_u16(v: &serde_json::Value, key: &str, what: &str) -> (r: Result<u16, String>)
    ensures
        r is Ok <==> spec_u16(*v, key@) is Some,
        r matches Ok(n) ==> Some(n) == spec_u16(*v, key@),
{
    match value_get(v, key) {
        None => Err(String::from_str("missing number field: ").concat(what)),
        Some(f) => match value_as_u64(f) {
            None => Err(String::from_str("field is not a number: ").concat(what)),
            Some(n) => {
                if n > 0xffff {
                    Err(String::from_str("number out of range: ").concat(what))
                } else {
                    Ok(n as u16)
                }
            },
        },
    }
}

/// Whether every element of a span's text array is a well-shaped fragment.
pub open spec fn texts_ok(items: Seq<serde_json::Value>) -> bool {
    forall|i: int| 0 <= i < items.len() ==> spec_string(#[trigger] items[i], "text"@) is Some
}

/// The fragments of a span's text array.
pub open spec fn texts_of(items: Seq<serde_json::Value>) -> Seq<Seq<char>> {
    items.map_values(|e: serde_json::Value| spec_string(e, "text"@)->0)
}

/// What a span object denotes, when well-shaped.
pub open spec fn spec_span(v: serde_json::Value) -> Option<SpanView> {
    if spec_string(v, "file_name"@) is Some && spec_u16(v, "line_start"@) is Some && spec_u16(
        v,
        "column_start"@,
    ) is Some && spec_u16(v, "line_end"@) is Some && spec_u16(v, "column_end"@) is Some
        && spec_array(v, "text"@) is Some && texts_ok(spec_array(v, "text"@)->0) {
        Some(
            SpanView {
                file_name: spec_string(v, "file_name"@)->0,
                line_start: spec_u16(v, "line_start"@)->0,
                column_start: spec_u16(v, "column_start"@)->0,
                line_end: spec_u16(v, "line_end"@)->0,
                column_end: spec_u16(v, "column_end"@)->0,
                text: texts_of(spec_array(v, "text"@)->0),
            },
        )
    } else {
        None
    }
}

/// What a child note object denotes, when well-shaped.
pub open spec fn spec_annotation(v: serde_json::Value) -> Option<AnnotationView> {
    match (spec_string(v, "level"@), spec_string(v, "message"@)) {
        (Some(l), Some(m)) => Some(AnnotationView { level: l, message: m }),
        _ => None,
    }
}

/// What a diagnostic's code field denotes: the outer `None` is a shape
/// error; a missing or null code is `Some(None)`.
pub open spec fn spec_code(v: serde_json::Value) -> Option<Option<Seq<char>>> {
    match tree_get(v, "code"@) {
        None => Some(None),
        Some(c) => if tree_is_null(c) {
            Some(None)
        } else {
            match spec_string(c, "code"@) {
                Some(s) => Some(Some(s)),
                None => None,
            }
        },
    }
}

/// Whether every element of a spans array is a well-shaped span.
pub open spec fn spans_ok(items: Seq<serde_json::Value>) -> bool {
    forall|i: int| 0 <= i < items.len() ==> spec_span(#[trigger] items[i]) is Some
}

/// The spans of a spans array.
pub open spec fn spans_of(items: Seq<serde_json::Value>) -> Seq<SpanView> {
    items.map_values(|e: serde_json::Value| spec_span(e)->0)
}

/// Whether every element of a children array is a well-shaped note.
pub open spec fn annotations_ok(items: Seq<serde_json::Value>) -> bool {
    forall|i: int| 0 <= i < items.len() ==> spec_annotation(#[trigger] items[i]) is Some
}

/// The notes of a children array.
pub open spec fn annotations_of(items: Seq<serde_json::Value>) -> Seq<AnnotationView> {
    items.map_values(|e: serde_json::Value| spec_annotation(e)->0)
}

/// What a diagnostic object denotes, when well-shaped.
pub open spec fn spec_message(v: serde_json::Value) -> Option<MessageView> {
    if spec_string(v, "level"@) is Some && spec_string(v, "message"@) is Some && spec_code(
        v,
    ) is Some && spec_array(v, "spans"@) is Some && spans_ok(spec_array(v, "spans"@)->0)
        && spec_array(v, "children"@) is Some && annotations_ok(spec_array(v, "children"@)->0) {
        Some(
            MessageView {
                code: spec_code(v)->0,
                level: spec_string(v, "level"@)->0,
                message: spec_string(v, "message"@)->0,
                spans: spans_of(spec_array(v, "spans"@)->0),
                children: annotations_of(spec_array(v, "children"@)->0),
            },
        )
    } else {
        None
    }
}

/// What a stream record object denotes, when well-shaped: its tag, and its
/// diagnostic when a non-null `message` field is present.
pub open spec fn spec_match(v: serde_json::Value) -> Option<MatchView> {
    match spec_string(v, "reason"@) {
        None => None,
        Some(reason) => match tree_get(v, "message"@) {
            None => Some(MatchView { reason, message: None }),
            Some(m) => if tree_is_null(m) {
                Some(MatchView { reason, message: None })
            } else {
                match spec_message(m) {
                    Some(mv) => Some(MatchView { reason, message: Some(mv) }),
                    None => None,
                }
            },
        },
    }
}

#[verifier::loop_isolation(false)]
fn parse_span(v: &serde_json::Value) -> (r: Result<Span, String>)
    ensures
        r is Ok <==> spec_span(*v) is Some,
        r matches Ok(s) ==> Some(s@) == spec_span(*v),
{
    let file_name = get_string(v, "file_name", "span file_name")?;
    let line_start = get_u16(v, "line_start", "span line_start")?;
    let column_start = get_u16(v, "column_start", "span column_start")?;
    let line_end = get_u16(v, "line_end", "span line_end")?;
    let column_end = get_u16(v, "column_end", "span column_end")?;
    let mut text: Vec<Text> = Vec::new();
    match value_get(v, "text") {
        None => {
            return Err(String::from_str("missing array field: span text"));
        },
        Some(t) => match value_as_array(t) {
            None => {
                return Err(String::from_str("field is not an array: span text"));
            },
            Some(items) => {
                let mut i: usize = 0;
                while i < items.len()
                    invariant
                        i <= items@.len(),
                        forall|k: int|
                            0 <= k < i ==> spec_string(#[trigger] items@[k], "text"@) is Some,
                        text@.map_values(|t: Text| t.text@) == texts_of(items@.take(i as int)),
                    decreases items@.len() - i,
                {
                    let ghost old_text = text@;
                    match get_string(&items[i], "text", "span text fragment") {
                        Err(e) => {
                            proof {
                                assert(!texts_ok(items@));
                            }
                            return Err(e);
                        },
                        Ok(fragment) => {
                            proof {
                                assert(Some(fragment@) == spec_string(items@[i as int], "text"@));
                            }
                            text.push(Text { text: fragment });
                        },
                    }
                    i = i + 1;
                    proof {
                        let f = |t: Text| t.text@;
                        assert forall|k: int|
                            0 <= k < i implies text@.map_values(f)[k] == texts_of(
                            items@.take(i as int),
                        )[k] by {
                            assert(texts_of(items@.take(i as int))[k] == spec_string(
                                items@[k],
                                "text"@,
                            )->0);
                            if k < i - 1 {
                                assert(text@[k] == old_text[k]);
                                assert(old_text.map_values(f)[k] == texts_of(
                                    items@.take(i - 1),
                                )[k]);
                            }
                        }
                        assert(text@.map_values(f) =~= texts_of(items@.take(i as int)));
                    }
                }
                proof {
                    assert(items@.take(i as int) =~= items@);
                }
            },
        },
    }
    let span = Span { file_name, line_start, column_start, line_end, column_end, text };
    proof {
        assert(Some(span@) == spec_span(*v));
    }
    Ok(span)
}

fn parse_annotation(v: &serde_json::Value) -> (r: Result<Annotation, String>)
    ensures
        r is Ok <==> spec_annotation(*v) is Some,
        r matches Ok(a) ==> Some(a@) == spec_annotation(*v),
{
    let level = get_string(v, "level", "child level")?;
    let message = get_string(v, "message", "child message")?;
    Ok(Annotation { level, message })
}

fn parse_code(v: &serde_json::Value) -> (r: Result<Option<Code>, String>)
    ensures
        r is Ok <==> spec_code(*v) is Some,
        r matches Ok(c) ==> Some(code_chars(c)) == spec_code(*v),
{
    match value_get(v, "code") {
        None => Ok(None),
        Some(c) => {
            if value_is_null(c) {
                Ok(None)
            } else {
                let code = get_string(c, "code", "code")?;
                Ok(Some(Code { code }))
            }
        },
    }
}

#[verifier::loop_isolation(false)]
fn parse_message(v: &serde_json::Value) -> (r: Result<Message, String>)
    ensures
        r is Ok <==> spec_message(*v) is Some,
        r matches Ok(m) ==> Some(m@) == spec_message(*v),
{
    let level = get_string(v, "level", "message level")?;
    let message = get_string(v, "message", "message text")?;
    let code = parse_code(v)?;
    let mut spans: Vec<Span> = Vec::new();
    match value_get(v, "spans") {
        None => {
            return Err(String::from_str("missing array field: spans"));
        },
        Some(s) => match value_as_array(s) {
            None => {
                return Err(String::from_str("field is not an array: spans"));
            },
            Some(items) => {
                let mut i: usize = 0;
                while i < items.len()
                    invariant
                        i <= items@.len(),
                        forall|k: int| 0 <= k < i ==> spec_span(#[trigger] items@[k]) is Some,
                        spans@.map_values(|s: Span| s@) == spans_of(items@.take(i as int)),
                    decreases items@.len() - i,
                {
                    let ghost old_spans = spans@;
                    match parse_span(&items[i]) {
                        Err(e) => {
                            proof {
                                assert(!spans_ok(items@));
                            }
                            return Err(e);
                        },
                        Ok(span) => {
                            proof {
                                assert(Some(span@) == spec_span(items@[i as int]));
                            }
                            spans.push(span);
                        },
                    }
                    i = i + 1;
                    proof {
                        let f = |s: Span| s@;
                        assert forall|k: int|
                            0 <= k < i implies spans@.map_values(f)[k] == spans_of(
                            items@.take(i as int),
                        )[k] by {
                            assert(spans_of(items@.take(i as int))[k] == spec_span(
                                items@[k],
                            )->0);
                            if k < i - 1 {
                                assert(spans@[k] == old_spans[k]);
                                assert(old_spans.map_values(f)[k] == spans_of(
                                    items@.take(i - 1),
                                )[k]);
                            }
                        }
                        assert(spans@.map_values(f) =~= spans_of(items@.take(i as int)));
                    }
                }
                proof {
                    assert(items@.take(i as int) =~= items@);
                }
            },
        },
    }
    let mut children: Vec<Annotation> = Vec::new();
    match value_get(v, "children") {
        None => {
            return Err(String::from_str("missing array field: children"));
        },
        Some(c) => match value_as_array(c) {
            None => {
                return Err(String::from_str("field is not an array: children"));
            },
            Some(items) => {
                let mut i: usize = 0;
                while i < items.len()
                    invariant
                        i <= items@.len(),
                        forall|k: int| 0 <= k < i ==> spec_annotation(#[trigger] items@[k]) is Some,
                        children@.map_values(|a: Annotation| a@) == annotations_of(
                            items@.take(i as int),
                        ),
                    decreases items@.len() - i,
                {
                    let ghost old_children = children@;
                    match parse_annotation(&items[i]) {
                        Err(e) => {
                            proof {
                                assert(!annotations_ok(items@));
                            }
                            return Err(e);
                        },
                        Ok(child) => {
                            proof {
                                assert(Some(child@) == spec_annotation(items@[i as int]));
                            }
                            children.push(child);
                        },
                    }
                    i = i + 1;
                    proof {
                        let f = |a: Annotation| a@;
                        assert forall|k: int|
                            0 <= k < i implies children@.map_values(f)[k] == annotations_of(
                            items@.take(i as int),
                        )[k] by {
                            assert(annotations_of(items@.take(i as int))[k] == spec_annotation(
                                items@[k],
                            )->0);
                            if k < i - 1 {
                                assert(children@[k] == old_children[k]);
                                assert(old_children.map_values(f)[k] == annotations_of(
                                    items@.take(i - 1),
                                )[k]);
                            }
                        }
                        assert(children@.map_values(f) =~= annotations_of(items@.take(i as int)));
                    }
                }
                proof {
                    assert(items@.take(i as int) =~= items@);
                }
            },
        },
    }
    let m = Message { code, level, message, spans, children };
    proof {
        assert(Some(m@) == spec_message(*v));
    }
    Ok(m)
}

/// What one line of the linter stream denotes: nothing when it is not
/// well-formed JSON or not a well-shaped record, else its record.
pub open spec fn line_record(s: Seq<char>) -> Option<MatchView> {
    if json_parses(s) {
        spec_match(json_tree(s))
    } else {
        None
    }
}

/// One line of the linter stream parsed into a record: exactly the record
/// the line denotes. A line that is not well-formed JSON, or whose record
/// shape is wrong, is an error carrying a description; a well-shaped record
/// without a diagnostic (a build-status record) parses with `message`
/// absent.
pub fn parse_match_line(line: &str) -> (r: Result<Match, String>)
    ensures
        r is Ok <==> line_record(line@) is Some,
        r matches Ok(m) ==> Some(m@) == line_record(line@),
{
    let v = match json_parse(line) {
        Ok(v) => v,
        Err(e) => {
            return Err(e);
        },
    };
    let reason = get_string(&v, "reason", "reason")?;
    let message = match value_get(&v, "message") {
        None => None,
        Some(m) => {
            if value_is_null(m) {
                None
            } else {
                Some(parse_message(m)?)
            }
        },
    };
    Ok(Match { reason, message })
}

/// A malformed input line held next to the description of what was wrong
/// with it.
#[derive(Debug, Clone, PartialEq, Eq)]
pub struct LineError {
    pub line: String,
    pub error: String,
}

/// What one line's diagnostic is, when its record carries one.
pub open spec fn line_message(s: Seq<char>) -> Option<MessageView> {
    match line_record(s) {
        Some(m) => m.message,
        None => None,
    }
}

/// The diagnostics of a stream's well-shaped records that carry one, in
/// input order.
pub open spec fn stream_messages(lines: Seq<Seq<char>>) -> Seq<MessageView> {
    lines.filter(|s: Seq<char>| line_message(s) is Some).map_values(
        |s: Seq<char>| line_message(s)->0,
    )
}

/// The stream's malformed lines, in input order: those denoting no record.
pub open spec fn failed_lines(lines: Seq<Seq<char>>) -> Seq<Seq<char>> {
    lines.filter(|s: Seq<char>| line_record(s) is None)
}

proof fn lemma_line_filter_step(views: Seq<Seq<char>>, i: int)
    requires
        0 <= i < views.len(),
    ensures
        stream_messages(views.take(i + 1)) == if line_message(views[i]) is Some {
            stream_messages(views.take(i)).push(line_message(views[i])->0)
        } else {
            stream_messages(views.take(i))
        },
        failed_lines(views.take(i + 1)) == if line_record(views[i]) is None {
            failed_lines(views.take(i)).push(views[i])
        } else {
            failed_lines(views.take(i))
        },
{
    let p1 = |s: Seq<char>| line_message(s) is Some;
    let p2 = |s: Seq<char>| line_record(s) is None;
    let pre = views.take(i);
    let x = views[i];
    assert(views.take(i + 1) =~= pre + seq![x]);
    Seq::filter_distributes_over_add(pre, seq![x], p1);
    Seq::filter_distributes_over_add(pre, seq![x], p2);
    reveal_with_fuel(Seq::filter, 2);
    assert(seq![x].drop_last() =~= Seq::<Seq<char>>::empty());
    if p1(x) {
        assert(seq![x].filter(p1) =~= seq![x]);
        assert(pre.filter(p1) + seq![x] =~= pre.filter(p1).push(x));
        assert(stream_messages(views.take(i + 1)) =~= stream_messages(pre).push(
            line_message(x)->0,
        ));
    } else {
        assert(seq![x].filter(p1) =~= Seq::<Seq<char>>::empty());
        assert(pre.filter(p1) + Seq::<Seq<char>>::empty() =~= pre.filter(p1));
        assert(stream_messages(views.take(i + 1)) =~= stream_messages(pre));
    }
    if p2(x) {
        assert(seq![x].filter(p2) =~= seq![x]);
        assert(failed_lines(views.take(i + 1)) =~= failed_lines(pre).push(x));
    } else {
        assert(seq![x].filter(p2) =~= Seq::<Seq<char>>::empty());
        assert(failed_lines(views.take(i + 1)) =~= failed_lines(pre));
    }
}

proof fn lemma_map_push_messages(s: Seq<Message>, x: Message)
    ensures
        s.push(x).map_values(|m: Message| m@) == s.map_values(|m: Message| m@).push(x@),
{
    assert(s.push(x).map_values(|m: Message| m@) =~= s.map_values(|m: Message| m@).push(x@));
}

proof fn lemma_map_push_failures(s: Seq<LineError>, x: LineError)
    ensures
        s.push(x).map_values(|f: LineError| f.line@) == s.map_values(
            |f: LineError| f.line@,
        ).push(x.line@),
{
    assert(s.push(x).map_values(|f: LineError| f.line@) =~= s.map_values(
        |f: LineError| f.line@,
    ).push(x.line@));
}

/// The diagnostic stream parsed line by line: the result holds exactly the
/// diagnostics of the lines denoting records that carry one, in input order,
/// and exactly the malformed lines, in input order, each held next to its
/// parse error. A malformed line is reported and excluded, never fatal; a
/// record without a diagnostic yields neither a message nor an error.
#[verifier::loop_isolation(false)]
pub fn parse_diagnostic_lines(lines: &Vec<String>) -> (r: (Vec<Message>, Vec<LineError>))
    ensures
        r.0@.map_values(|m: Message| m@) == stream_messages(
            lines@.map_values(|l: String| l@),
        ),
        r.1@.map_values(|f: LineError| f.line@) == failed_lines(
            lines@.map_values(|l: String| l@),
        ),
{
    let ghost views = lines@.map_values(|l: String| l@);
    let mut messages: Vec<Message> = Vec::new();
    let mut failures: Vec<LineError> = Vec::new();
    let mut i: usize = 0;
    while i < lines.len()
        invariant
            i <= lines@.len(),
            views == lines@.map_values(|l: String| l@),
            messages@.map_values(|m: Message| m@) == stream_messages(views.take(i as int)),
            failures@.map_values(|f: LineError| f.line@) == failed_lines(views.take(i as int)),
        decreases lines@.len() - i,
    {
        proof {
            assert(views[i as int] == lines@[i as int]@);
            lemma_line_filter_step(views, i as int);
        }
        match parse_match_line(lines[i].as_str()) {
            Ok(m) => {
                proof {
                    assert(line_record(views[i as int]) == Some(m@));
                }
                match m.message {
                    Some(msg) => {
                        proof {
                            assert(line_message(views[i as int]) == Some(msg@));
                            lemma_map_push_messages(messages@, msg);
                        }
                        messages.push(msg);
                    },
                    None => {
                        proof {
                            assert(line_message(views[i as int]) is None);
                        }
                    },
                }
            },
            Err(e) => {
                proof {
                    assert(line_record(views[i as int]) is None);
                }
                let failure = LineError { line: lines[i].clone(), error: e };
                proof {
                    lemma_map_push_failures(failures@, failure);
                }
                failures.push(failure);
            },
        }
        i = i + 1;
    }
    proof {
        assert(views.take(i as int) =~= views);
    }
    (messages, failures)
}

} // verus!
