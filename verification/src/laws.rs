//! What holds of the decoder on every input.
//!
//! Each statement here is proved from the definitions that the contracts of
//! the executable functions are written in, so it holds of what those
//! functions return.

use crate::count::{all_digits, count_of, is_digit};
use crate::duration::{div_round, ticks_to_nanos};
use crate::error::{DecodeError, DecodeErrorView, ParseCause};
use crate::record::{
    decode_line, numeric_fields, result_view, valid_fields, CpuTimes, CpuTimesView, FIELD_COUNT,
};
use crate::source::{
    aggregate_times, core_lines, decodable_lines, is_core_line, lines, per_cpu_times,
    records_view,
};
use crate::text::{
    is_whitespace, lemma_leading, lemma_leading_is, tokens, whitespace_run, word_run,
};
use vstd::prelude::*;

verus! {

/// An interval is rounded to the nearest nanosecond: `div_round(n, d)` is an
/// integer nearest to `n / d`, and where two integers are equally near it is
/// the even one.
pub proof fn lemma_div_round_nearest(n: nat, d: nat)
    requires
        d > 0,
    ensures
        2 * (div_round(n, d) * d - n) <= d,
        2 * (n - div_round(n, d) * d) <= d,
        2 * (div_round(n, d) * d - n) == d || 2 * (n - div_round(n, d) * d) == d
            ==> div_round(n, d) % 2 == 0,
{
    let q = n / d;
    let r = n % d;
    assert(n == q * d + r && 0 <= r < d) by {
        vstd::arithmetic::div_mod::lemma_fundamental_div_mod(n as int, d as int);
        vstd::arithmetic::div_mod::lemma_mod_bound(n as int, d as int);
        assert(d * q == q * d) by (nonlinear_arith);
    }
    assert((q + 1) * d == q * d + d) by (nonlinear_arith);
}

/// Every token is a run, free of white space and not empty, and a text has no
/// more tokens than characters.
pub proof fn lemma_tokens_shape(s: Seq<char>)
    ensures
        tokens(s).len() <= s.len(),
        forall|i: int|
            0 <= i < tokens(s).len() ==> (#[trigger] tokens(s)[i]).len() > 0 && forall|j: int|
                0 <= j < tokens(s)[i].len() ==> !is_whitespace(#[trigger] tokens(s)[i][j]),
    decreases s.len(),
{
    lemma_leading(s, |c: char| is_whitespace(c));
    let rest = s.skip(whitespace_run(s) as int);
    let n = word_run(rest);
    lemma_leading(rest, |c: char| !is_whitespace(c));
    if n > 0 {
        let first = rest.take(n as int);
        let tail = tokens(rest.skip(n as int));
        lemma_tokens_shape(rest.skip(n as int));
        assert forall|i: int| 0 <= i < tokens(s).len() implies (#[trigger] tokens(s)[i]).len() > 0
            && forall|j: int|
            0 <= j < tokens(s)[i].len() ==> !is_whitespace(#[trigger] tokens(s)[i][j]) by {
            if i == 0 {
                assert(tokens(s)[0] == first);
                assert forall|j: int| 0 <= j < first.len() implies !is_whitespace(
                    #[trigger] first[j],
                ) by {
                    assert(first[j] == rest[j]);
                }
            } else {
                assert(tokens(s)[i] == tail[i - 1]);
            }
        }
    }
}

/// A line with a label and ten tick counts decodes to a record, and each
/// field of the record is the interval that the count at its position lasts:
/// user, nice, system, idle, iowait, irq, softirq, steal, guest and guest_nice,
/// in this order.
pub proof fn lemma_decoded_fields(line: Seq<char>, ticks_per_second: nat)
    requires
        numeric_fields(line).len() == FIELD_COUNT,
        forall|i: int| 0 <= i < FIELD_COUNT ==> count_of(#[trigger] numeric_fields(line)[i]) is Ok,
    ensures
        decode_line(line, ticks_per_second) is Ok,
        ({
            let fields = numeric_fields(line);
            let times = decode_line(line, ticks_per_second)->Ok_0;
            let ticks = |i: int| count_of(fields[i])->Ok_0 as nat;
            &&& times.user == ticks_to_nanos(ticks(0), ticks_per_second)
            &&& times.nice == ticks_to_nanos(ticks(1), ticks_per_second)
            &&& times.system == ticks_to_nanos(ticks(2), ticks_per_second)
            &&& times.idle == ticks_to_nanos(ticks(3), ticks_per_second)
            &&& times.iowait == ticks_to_nanos(ticks(4), ticks_per_second)
            &&& times.irq == ticks_to_nanos(ticks(5), ticks_per_second)
            &&& times.softirq == ticks_to_nanos(ticks(6), ticks_per_second)
            &&& times.steal == ticks_to_nanos(ticks(7), ticks_per_second)
            &&& times.guest == ticks_to_nanos(ticks(8), ticks_per_second)
            &&& times.guest_nice == ticks_to_nanos(ticks(9), ticks_per_second)
        }),
{
    let fields = numeric_fields(line);
    lemma_leading_is(fields, |t: Seq<char>| count_of(t) is Ok, fields.len());
}

/// The busy time takes no account of the time spent running guests: records
/// that differ in nothing else are equally busy, and equal in total.
pub proof fn lemma_busy_ignores_guests(a: CpuTimesView, b: CpuTimesView)
    requires
        a.user == b.user,
        a.nice == b.nice,
        a.system == b.system,
        a.idle == b.idle,
        a.iowait == b.iowait,
        a.irq == b.irq,
        a.softirq == b.softirq,
        a.steal == b.steal,
    ensures
        a.busy() == b.busy(),
        a.total() == b.total(),
{
}

/// A line that holds fewer or more than ten numeric fields does not decode.
/// Where each of its fields writes a tick count, the error tells how many
/// fields there are.
pub proof fn lemma_wrong_field_count(line: Seq<char>, ticks_per_second: nat)
    requires
        numeric_fields(line).len() != FIELD_COUNT,
    ensures
        decode_line(line, ticks_per_second) is Err,
        (forall|i: int|
            0 <= i < numeric_fields(line).len() ==> count_of(#[trigger] numeric_fields(line)[i])
                is Ok) ==> decode_line(line, ticks_per_second) == Err::<
            CpuTimesView,
            DecodeErrorView,
        >(
            DecodeErrorView::FieldCount {
                expected: FIELD_COUNT as nat,
                actual: numeric_fields(line).len(),
            },
        ),
{
    let fields = numeric_fields(line);
    if forall|i: int| 0 <= i < fields.len() ==> count_of(#[trigger] fields[i]) is Ok {
        lemma_leading_is(fields, |t: Seq<char>| count_of(t) is Ok, fields.len());
    }
}

/// A line one of whose numeric fields holds a character that is no digit does
/// not decode. The error names the first field of the line that writes no
/// tick count, by its position and its text; every field before it writes
/// one. Where that is the field with the character in question, the cause is
/// the invalid digit.
pub proof fn lemma_non_digit_field(line: Seq<char>, ticks_per_second: nat, i: int, j: int)
    requires
        0 <= i < numeric_fields(line).len(),
        0 <= j < numeric_fields(line)[i].len(),
        !is_digit(numeric_fields(line)[i][j]),
    ensures
        ({
            let fields = numeric_fields(line);
            let k = valid_fields(fields);
            &&& k <= i
            &&& forall|h: int| 0 <= h < k ==> count_of(#[trigger] fields[h]) is Ok
            &&& count_of(fields[k as int]) is Err
            &&& decode_line(line, ticks_per_second) == Err::<CpuTimesView, DecodeErrorView>(
                DecodeErrorView::InvalidField {
                    index: k,
                    token: fields[k as int],
                    cause: count_of(fields[k as int])->Err_0,
                },
            )
            &&& k == i ==> count_of(fields[k as int]) == Err::<u64, ParseCause>(
                ParseCause::InvalidDigit,
            )
        }),
{
    let fields = numeric_fields(line);
    let is_count = |t: Seq<char>| count_of(t) is Ok;
    assert(!all_digits(fields[i]));
    assert(!is_count(fields[i]));
    lemma_leading(fields, is_count);
}

/// The field that an error names is never reported as empty: a token has at
/// least one character.
pub proof fn lemma_named_field_is_not_empty(line: Seq<char>, ticks_per_second: nat)
    ensures
        match decode_line(line, ticks_per_second) {
            Err(DecodeErrorView::InvalidField { index, token, cause }) => {
                &&& index < numeric_fields(line).len()
                &&& token == numeric_fields(line)[index as int]
                &&& token.len() > 0
                &&& cause != ParseCause::Empty
                &&& count_of(token) == Err::<u64, ParseCause>(cause)
            },
            _ => true,
        },
{
    let fields = numeric_fields(line);
    let k = valid_fields(fields);
    lemma_leading(fields, |t: Seq<char>| count_of(t) is Ok);
    if k < fields.len() {
        lemma_tokens_shape(line);
        assert(fields[k as int] == tokens(line)[k as int + 1]);
    }
}

/// A source without characters has no aggregate record and no per-core
/// records: the one is reported as an empty source, the other as missing
/// per-core lines.
pub proof fn lemma_empty_source(ticks_per_second: nat)
    ensures
        aggregate_times(Seq::empty(), ticks_per_second) == Err::<CpuTimesView, DecodeErrorView>(
            DecodeErrorView::EmptySource,
        ),
        per_cpu_times(Seq::empty(), ticks_per_second) == Err::<
            Seq<CpuTimesView>,
            DecodeErrorView,
        >(DecodeErrorView::MissingPerCpu),
{
}

/// The aggregate read reports an empty source for the text without
/// characters and for no other, and the per-core read reports missing
/// per-core lines where no per-core line follows the first line, and nowhere
/// else.
pub proof fn lemma_source_errors(text: Seq<char>, ticks_per_second: nat)
    ensures
        aggregate_times(text, ticks_per_second) == Err::<CpuTimesView, DecodeErrorView>(
            DecodeErrorView::EmptySource,
        ) <==> text.len() == 0,
        per_cpu_times(text, ticks_per_second) == Err::<Seq<CpuTimesView>, DecodeErrorView>(
            DecodeErrorView::MissingPerCpu,
        ) <==> core_lines(text).len() == 0,
{
    let ls = core_lines(text);
    if ls.len() > 0 {
        let k = decodable_lines(ls, ticks_per_second);
        lemma_leading(ls, |l: Seq<char>| decode_line(l, ticks_per_second) is Ok);
    }
}

/// A source in which no line after the first is one of a single core has no
/// per-core records.
pub proof fn lemma_no_core_lines(text: Seq<char>, ticks_per_second: nat)
    requires
        forall|i: int| 1 <= i < lines(text).len() ==> !is_core_line(#[trigger] lines(text)[i]),
    ensures
        per_cpu_times(text, ticks_per_second) == Err::<Seq<CpuTimesView>, DecodeErrorView>(
            DecodeErrorView::MissingPerCpu,
        ),
{
    lemma_core_lines_stop_at_gap(text, ticks_per_second);
}

/// A source whose second line is missing, or is not one of a single core, has
/// no per-core records, whatever follows that line.
pub proof fn lemma_core_lines_stop_at_gap(text: Seq<char>, ticks_per_second: nat)
    requires
        lines(text).len() < 2 || !is_core_line(lines(text)[1]),
    ensures
        core_lines(text).len() == 0,
        per_cpu_times(text, ticks_per_second) == Err::<Seq<CpuTimesView>, DecodeErrorView>(
            DecodeErrorView::MissingPerCpu,
        ),
{
    let all = lines(text);
    if all.len() > 0 {
        let rest = all.drop_first();
        lemma_leading_is(rest, |l: Seq<char>| is_core_line(l), 0);
    }
}

/// The per-core read stops at the first per-core line that does not decode,
/// and returns the error of that line.
pub proof fn lemma_first_bad_line_ends_the_read(text: Seq<char>, ticks_per_second: nat, i: int)
    requires
        0 <= i < core_lines(text).len(),
        decode_line(core_lines(text)[i], ticks_per_second) is Err,
        forall|j: int|
            0 <= j < i ==> decode_line(#[trigger] core_lines(text)[j], ticks_per_second) is Ok,
    ensures
        per_cpu_times(text, ticks_per_second) == Err::<Seq<CpuTimesView>, DecodeErrorView>(
            decode_line(core_lines(text)[i], ticks_per_second)->Err_0,
        ),
{
    lemma_leading_is(
        core_lines(text),
        |l: Seq<char>| decode_line(l, ticks_per_second) is Ok,
        i as nat,
    );
}

/// Where every per-core line decodes, the per-core read returns one record
/// for each of them, in the order of the lines.
pub proof fn lemma_records_follow_the_lines(text: Seq<char>, ticks_per_second: nat)
    requires
        core_lines(text).len() > 0,
        forall|j: int|
            0 <= j < core_lines(text).len() ==> decode_line(
                #[trigger] core_lines(text)[j],
                ticks_per_second,
            ) is Ok,
    ensures
        per_cpu_times(text, ticks_per_second) is Ok,
        per_cpu_times(text, ticks_per_second)->Ok_0.len() == core_lines(text).len(),
        forall|j: int|
            0 <= j < core_lines(text).len() ==> decode_line(
                core_lines(text)[j],
                ticks_per_second,
            ) == Ok::<CpuTimesView, DecodeErrorView>(
                #[trigger] per_cpu_times(text, ticks_per_second)->Ok_0[j],
            ),
{
    lemma_leading_is(
        core_lines(text),
        |l: Seq<char>| decode_line(l, ticks_per_second) is Ok,
        core_lines(text).len(),
    );
}

/// Reading the aggregate record twice from the same text gives the same
/// result: two results that both meet the contract of the reader have the
/// same value, and two records are equal.
pub proof fn lemma_aggregate_read_repeats(
    text: Seq<char>,
    ticks_per_second: nat,
    first: Result<CpuTimes, DecodeError>,
    second: Result<CpuTimes, DecodeError>,
)
    requires
        result_view(first) == aggregate_times(text, ticks_per_second),
        result_view(second) == aggregate_times(text, ticks_per_second),
    ensures
        result_view(first) == result_view(second),
        first is Ok <==> second is Ok,
        first is Ok ==> first->Ok_0 == second->Ok_0,
{
    if first is Ok {
        CpuTimes::lemma_view_injective(first->Ok_0, second->Ok_0);
    }
}

/// Reading the per-core records twice from the same text gives the same
/// result: two results that both meet the contract of the reader have the
/// same value, and two lists of records are equal.
pub proof fn lemma_per_cpu_read_repeats(
    text: Seq<char>,
    ticks_per_second: nat,
    first: Result<Vec<CpuTimes>, DecodeError>,
    second: Result<Vec<CpuTimes>, DecodeError>,
)
    requires
        records_view(first) == per_cpu_times(text, ticks_per_second),
        records_view(second) == per_cpu_times(text, ticks_per_second),
    ensures
        records_view(first) == records_view(second),
        first is Ok <==> second is Ok,
        first is Ok ==> first->Ok_0@ == second->Ok_0@,
{
    if first is Ok {
        let a = first->Ok_0@;
        let b = second->Ok_0@;
        let va = Seq::new(a.len(), |i: int| a[i]@);
        let vb = Seq::new(b.len(), |i: int| b[i]@);
        assert(va == vb);
        assert(a.len() == va.len() && b.len() == vb.len());
        assert forall|i: int| 0 <= i < a.len() implies a[i] == b[i] by {
            assert(va[i] == vb[i]);
            CpuTimes::lemma_view_injective(a[i], b[i]);
        }
        assert(a =~= b);
    }
}

} // verus!
