//! The log record written for each call of an instrumented function.
//!
//! One line, four fields joined by the record separator `␞` (U+241E):
//! `(<timestamp> <file>:<line>:<column>)␞<fn|async fn> <name>␞(<args>) -> <result>␞execution time=<duration>`.
use vstd::prelude::*;

use crate::duration::{
    duration_char,
    duration_text,
    lemma_duration_text_chars,
    lemma_scan_duration_text,
    push_duration,
};
use crate::scan::{is_digit, last_marker_end, lemma_last_marker_skips, scanned_nanos, time_marker};
use crate::duration::lemma_decimal;
use crate::text::{decimal, push_char, push_decimal, push_text};

verus! {

/// The separator between the fields of a record.
pub open spec fn delimiter() -> char {
    '\u{241E}'
}

/// One argument as the record shows it: `name = value`.
pub open spec fn arg_entry_text(name: Seq<char>, debug: Seq<char>) -> Seq<char> {
    name + " = "@ + debug
}

/// The receiver as the record shows it: `self = value`.
pub open spec fn receiver_entry_text(debug: Seq<char>) -> Seq<char> {
    arg_entry_text("self"@, debug)
}

/// The parts joined by `", "`.
pub open spec fn joined(parts: Seq<Seq<char>>) -> Seq<char>
    decreases parts.len(),
{
    if parts.len() == 0 {
        Seq::empty()
    } else if parts.len() == 1 {
        parts[0]
    } else {
        joined(parts.drop_last()) + ", "@ + parts.last()
    }
}

pub open spec fn views(parts: Seq<String>) -> Seq<Seq<char>> {
    parts.map_values(|p: String| p@)
}

/// The tag that says how the function is called.
pub open spec fn kind_tag(is_async: bool) -> Seq<char> {
    if is_async {
        "async fn"@
    } else {
        "fn"@
    }
}

/// The first field: when and where.
pub open spec fn context_text(timestamp: Seq<char>, file: Seq<char>, line: nat, column: nat) -> Seq<
    char,
> {
    seq!['('] + timestamp + seq![' '] + file + seq![':'] + decimal(line) + seq![':'] + decimal(
        column,
    ) + seq![')']
}

/// The record up to and including the time marker.
pub open spec fn record_head(
    timestamp: Seq<char>,
    file: Seq<char>,
    line: nat,
    column: nat,
    is_async: bool,
    name: Seq<char>,
    args: Seq<char>,
    result: Seq<char>,
) -> Seq<char> {
    context_text(timestamp, file, line, column) + seq![delimiter()] + kind_tag(is_async) + seq![' ']
        + name + seq![delimiter(), '('] + args + ") -> "@ + result + seq![delimiter()]
        + time_marker()
}

/// The whole record of one call that took `nanos` nanoseconds.
pub open spec fn record_text(
    timestamp: Seq<char>,
    file: Seq<char>,
    line: nat,
    column: nat,
    is_async: bool,
    name: Seq<char>,
    args: Seq<char>,
    result: Seq<char>,
    nanos: nat,
) -> Seq<char> {
    record_head(timestamp, file, line, column, is_async, name, args, result) + duration_text(nanos)
}

/// Every record gives back, by the scanning rule, exactly the elapsed time it
/// was written with, whatever its other fields hold; a call that took any
/// time at all reads back as a positive duration.
pub proof fn lemma_record_time_round_trip(
    timestamp: Seq<char>,
    file: Seq<char>,
    line: nat,
    column: nat,
    is_async: bool,
    name: Seq<char>,
    args: Seq<char>,
    result: Seq<char>,
    nanos: nat,
)
    ensures
        scanned_nanos(
            record_text(timestamp, file, line, column, is_async, name, args, result, nanos),
        ) == Some(nanos),
        nanos > 0 ==> scanned_nanos(
            record_text(timestamp, file, line, column, is_async, name, args, result, nanos),
        ).unwrap() > 0,
{
    let h = record_head(timestamp, file, line, column, is_async, name, args, result);
    let d = duration_text(nanos);
    let s = record_text(timestamp, file, line, column, is_async, name, args, result, nanos);
    let m = time_marker().len() as int;
    assert(s == h + d);
    assert(s.subrange(h.len() - m, h.len() as int) =~= time_marker());
    lemma_duration_text_chars(nanos);
    assert forall|q: int| h.len() <= q < s.len() implies s[q] != '=' by {
        assert(s[q] == d[q - h.len()]);
        assert(duration_char(d[q - h.len()]));
    }
    lemma_last_marker_skips(s, h.len() as int, s.len() as int);
    assert(last_marker_end(s, h.len() as int) == Some(h.len() as int));
    assert(s.skip(h.len() as int) =~= d);
    lemma_scan_duration_text(nanos);
}

/// The result is logged as the text it was given, error or not: two records
/// that differ only in the result agree everywhere but in that field.
pub proof fn lemma_result_logged_verbatim(
    timestamp: Seq<char>,
    file: Seq<char>,
    line: nat,
    column: nat,
    is_async: bool,
    name: Seq<char>,
    args: Seq<char>,
    result: Seq<char>,
    nanos: nat,
)
    ensures
        record_text(timestamp, file, line, column, is_async, name, args, result, nanos)
            == result_prefix(timestamp, file, line, column, is_async, name, args) + result
            + result_suffix(nanos),
{
}

/// The record up to the result field.
pub open spec fn result_prefix(
    timestamp: Seq<char>,
    file: Seq<char>,
    line: nat,
    column: nat,
    is_async: bool,
    name: Seq<char>,
    args: Seq<char>,
) -> Seq<char> {
    context_text(timestamp, file, line, column) + seq![delimiter()] + kind_tag(is_async) + seq![' ']
        + name + seq![delimiter(), '('] + args + ") -> "@
}

/// The record after the result field.
pub open spec fn result_suffix(nanos: nat) -> Seq<char> {
    seq![delimiter()] + time_marker() + duration_text(nanos)
}

/// `s` holds no `c`.
pub open spec fn free_of(s: Seq<char>, c: char) -> bool {
    forall|i: int| 0 <= i < s.len() ==> s[i] != c
}

/// The second field: how the function is called, and its name.
pub open spec fn call_field(is_async: bool, name: Seq<char>) -> Seq<char> {
    kind_tag(is_async) + seq![' '] + name
}

/// The third field: arguments and result.
pub open spec fn result_field(args: Seq<char>, result: Seq<char>) -> Seq<char> {
    seq!['('] + args + ") -> "@ + result
}

/// The fourth field: the elapsed time.
pub open spec fn timing_field(nanos: nat) -> Seq<char> {
    time_marker() + duration_text(nanos)
}

proof fn lemma_free_of_concat(a: Seq<char>, b: Seq<char>, c: char)
    requires
        free_of(a, c),
        free_of(b, c),
    ensures
        free_of(a + b, c),
{
    assert forall|i: int| 0 <= i < (a + b).len() implies (a + b)[i] != c by {
        if i >= a.len() {
            assert((a + b)[i] == b[i - a.len()]);
        }
    }
}

proof fn lemma_plain_free(s: Seq<char>)
    requires
        forall|i: int|
            0 <= i < s.len() ==> (timestamp_char(#[trigger] s[i]) || duration_char(s[i]) || s[i]
                == '(' || s[i] == ')' || s[i] == '>' || s[i] == '=' || ('a' <= s[i] && s[i] <= 'z')),
    ensures
        free_of(s, delimiter()),
        free_of(s, '\n'),
{
}

/// A record is one line of four fields and exactly three separators, when
/// the text it is given holds neither a separator nor a line break.
pub proof fn lemma_record_one_line(
    timestamp: Seq<char>,
    file: Seq<char>,
    line: nat,
    column: nat,
    is_async: bool,
    name: Seq<char>,
    args: Seq<char>,
    result: Seq<char>,
    nanos: nat,
)
    requires
        free_of(timestamp, delimiter()) && free_of(timestamp, '\n'),
        free_of(file, delimiter()) && free_of(file, '\n'),
        free_of(name, delimiter()) && free_of(name, '\n'),
        free_of(args, delimiter()) && free_of(args, '\n'),
        free_of(result, delimiter()) && free_of(result, '\n'),
    ensures
        record_text(timestamp, file, line, column, is_async, name, args, result, nanos)
            == context_text(timestamp, file, line, column) + seq![delimiter()] + call_field(
            is_async,
            name,
        ) + seq![delimiter()] + result_field(args, result) + seq![delimiter()] + timing_field(
            nanos,
        ),
        free_of(context_text(timestamp, file, line, column), delimiter()),
        free_of(context_text(timestamp, file, line, column), '\n'),
        free_of(call_field(is_async, name), delimiter()),
        free_of(call_field(is_async, name), '\n'),
        free_of(result_field(args, result), delimiter()),
        free_of(result_field(args, result), '\n'),
        free_of(timing_field(nanos), delimiter()),
        free_of(timing_field(nanos), '\n'),
{
    lemma_fields_free_of(delimiter(), timestamp, file, line, column, is_async, name, args, result, nanos);
    lemma_fields_free_of('\n', timestamp, file, line, column, is_async, name, args, result, nanos);
}

proof fn lemma_fields_free_of(
    c: char,
    timestamp: Seq<char>,
    file: Seq<char>,
    line: nat,
    column: nat,
    is_async: bool,
    name: Seq<char>,
    args: Seq<char>,
    result: Seq<char>,
    nanos: nat,
)
    requires
        c == delimiter() || c == '\n',
        free_of(timestamp, c),
        free_of(file, c),
        free_of(name, c),
        free_of(args, c),
        free_of(result, c),
    ensures
        free_of(context_text(timestamp, file, line, column), c),
        free_of(call_field(is_async, name), c),
        free_of(result_field(args, result), c),
        free_of(timing_field(nanos), c),
{
    reveal_strlit("async fn");
    reveal_strlit("fn");
    reveal_strlit(") -> ");
    lemma_decimal(line);
    lemma_decimal(column);
    lemma_duration_text_chars(nanos);
    lemma_plain_free(seq!['(']);
    lemma_plain_free(seq![' ']);
    lemma_plain_free(seq![':']);
    lemma_plain_free(seq![')']);
    lemma_plain_free(decimal(line));
    lemma_plain_free(decimal(column));
    lemma_plain_free(kind_tag(is_async));
    lemma_plain_free(") -> "@);
    lemma_plain_free(time_marker());
    lemma_plain_free(duration_text(nanos));
    let ctx0 = seq!['('] + timestamp;
    lemma_free_of_concat(seq!['('], timestamp, c);
    let ctx1 = ctx0 + seq![' '];
    lemma_free_of_concat(ctx0, seq![' '], c);
    let ctx2 = ctx1 + file;
    lemma_free_of_concat(ctx1, file, c);
    let ctx3 = ctx2 + seq![':'];
    lemma_free_of_concat(ctx2, seq![':'], c);
    let ctx4 = ctx3 + decimal(line);
    lemma_free_of_concat(ctx3, decimal(line), c);
    let ctx5 = ctx4 + seq![':'];
    lemma_free_of_concat(ctx4, seq![':'], c);
    let ctx6 = ctx5 + decimal(column);
    lemma_free_of_concat(ctx5, decimal(column), c);
    lemma_free_of_concat(ctx6, seq![')'], c);
    lemma_free_of_concat(kind_tag(is_async), seq![' '], c);
    lemma_free_of_concat(kind_tag(is_async) + seq![' '], name, c);
    lemma_free_of_concat(seq!['('], args, c);
    lemma_free_of_concat(seq!['('] + args, ") -> "@, c);
    lemma_free_of_concat(seq!['('] + args + ") -> "@, result, c);
    lemma_free_of_concat(time_marker(), duration_text(nanos), c);
}

/// `name = debug`, the record's text for one argument.
pub fn arg_entry(name: &str, debug: &str) -> (r: String)
    ensures
        r@ == arg_entry_text(name@, debug@),
{
    let mut s = String::new();
    push_text(&mut s, name);
    push_text(&mut s, " = ");
    push_text(&mut s, debug);
    assert(s@ =~= arg_entry_text(name@, debug@));
    s
}

/// `self = debug`, the record's text for the receiver.
pub fn receiver_entry(debug: &str) -> (r: String)
    ensures
        r@ == receiver_entry_text(debug@),
{
    arg_entry("self", debug)
}

/// The argument entries joined by `", "`.
pub fn join_args(parts: &Vec<String>) -> (r: String)
    ensures
        r@ == joined(views(parts@)),
{
    let mut s = String::new();
    let mut i: usize = 0;
    while i < parts.len()
        invariant
            i <= parts@.len(),
            s@ == joined(views(parts@.take(i as int))),
        decreases parts@.len() - i,
    {
        if i > 0 {
            push_text(&mut s, ", ");
        }
        push_text(&mut s, parts[i].as_str());
        proof {
            let next = views(parts@.take(i + 1));
            assert(next.drop_last() =~= views(parts@.take(i as int)));
            assert(next.last() == parts@[i as int]@);
            assert(s@ =~= joined(next));
        }
        i += 1;
    }
    assert(parts@.take(parts@.len() as int) =~= parts@);
    s
}

/// The record of one call, with the timestamp given.
pub fn format_record(
    timestamp: &str,
    file: &str,
    line: u32,
    column: u32,
    is_async: bool,
    name: &str,
    args: &str,
    result: &str,
    nanos: u128,
) -> (r: String)
    ensures
        r@ == record_text(
            timestamp@,
            file@,
            line as nat,
            column as nat,
            is_async,
            name@,
            args@,
            result@,
            nanos as nat,
        ),
{
    let mut s = String::new();
    push_char(&mut s, '(');
    push_text(&mut s, timestamp);
    push_char(&mut s, ' ');
    push_text(&mut s, file);
    push_char(&mut s, ':');
    push_decimal(&mut s, line as u128);
    push_char(&mut s, ':');
    push_decimal(&mut s, column as u128);
    push_char(&mut s, ')');
    assert(s@ =~= context_text(timestamp@, file@, line as nat, column as nat));
    push_char(&mut s, '\u{241E}');
    if is_async {
        push_text(&mut s, "async fn");
    } else {
        push_text(&mut s, "fn");
    }
    push_char(&mut s, ' ');
    push_text(&mut s, name);
    push_char(&mut s, '\u{241E}');
    push_char(&mut s, '(');
    push_text(&mut s, args);
    push_text(&mut s, ") -> ");
    push_text(&mut s, result);
    push_char(&mut s, '\u{241E}');
    let marker = "execution time=";
    proof {
        reveal_strlit("execution time=");
    }
    assert(marker@ =~= time_marker());
    push_text(&mut s, marker);
    assert(s@ =~= record_head(
        timestamp@,
        file@,
        line as nat,
        column as nat,
        is_async,
        name@,
        args@,
        result@,
    ));
    push_duration(&mut s, nanos);
    s
}

/// A character that a local date and time can be written with:
/// `2024-01-02 03:04:05.000000006 +01:00`, `+10000-01-01 00:00:00 -05:30`.
pub open spec fn timestamp_char(c: char) -> bool {
    is_digit(c) || c == '-' || c == '+' || c == ':' || c == '.' || c == ' '
}

/// Relies on chrono's `From<SystemTime> for DateTime<Local>` and the
/// `Display` of `DateTime`: the local time now, as text. Which time depends on
/// the clock; the text is made of the date (`Debug` of `NaiveDate`: digits and
/// `-`, a sign for years outside 0..=9999), a space, the time (`Debug` of
/// `NaiveTime`: digits, `:` and `.`), a space and the offset (`Debug` of
/// `FixedOffset`: a sign, digits and `:`). The conversion takes a clock
/// reading before 1970 as a negative timestamp instead of failing.
#[verifier::external_body]
fn local_timestamp() -> (r: String)
    ensures
        forall|i: int| 0 <= i < r@.len() ==> timestamp_char(#[trigger] r@[i]),
{
    chrono::DateTime::<chrono::Local>::from(std::time::SystemTime::now()).to_string()
}

/// The record of one call, stamped with the local time now.
pub fn trace_record(
    file: &str,
    line: u32,
    column: u32,
    is_async: bool,
    name: &str,
    args: &str,
    result: &str,
    nanos: u128,
) -> (r: String)
    ensures
        exists|timestamp: Seq<char>|
            (forall|i: int| 0 <= i < timestamp.len() ==> timestamp_char(#[trigger] timestamp[i]))
                && r@ == record_text(
                timestamp,
                file@,
                line as nat,
                column as nat,
                is_async,
                name@,
                args@,
                result@,
                nanos as nat,
            ),
{
    let timestamp = local_timestamp();
    format_record(timestamp.as_str(), file, line, column, is_async, name, args, result, nanos)
}

} // verus!
