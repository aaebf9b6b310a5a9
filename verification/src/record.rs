//! The record of CPU times and the decoder of one line of counters.

use crate::count::{count_of, parse_count_at, Count};
use crate::duration::{lemma_div_round_bound, ticks_to_nanos, Duration, NANOS_PER_SEC};
use crate::error::{DecodeError, DecodeErrorView, ParseCause};
use crate::text::{
    chars_of, leading, lemma_leading_is, lemma_tokens_step, skip_whitespace, skip_word, tokens,
};
use vstd::prelude::*;

verus! {

/// How many numeric fields a line of counters holds after its label.
pub const FIELD_COUNT: usize = 10;

/// The longest interval that a field of a record can hold, in nanoseconds:
/// the largest tick count at one tick to the second.
pub open spec fn max_interval() -> nat {
    (Count::MAX as nat) * (NANOS_PER_SEC as nat)
}

/// The time that one CPU, or the whole machine, has spent in each execution
/// mode since boot.
#[derive(Debug, Clone, Copy, PartialEq, Eq)]
pub struct CpuTimes {
    user: Duration,
    nice: Duration,
    system: Duration,
    idle: Duration,
    iowait: Duration,
    irq: Duration,
    softirq: Duration,
    steal: Duration,
    guest: Duration,
    guest_nice: Duration,
}

/// The mathematical value of a [`CpuTimes`]: each interval in nanoseconds.
pub struct CpuTimesView {
    pub user: nat,
    pub nice: nat,
    pub system: nat,
    pub idle: nat,
    pub iowait: nat,
    pub irq: nat,
    pub softirq: nat,
    pub steal: nat,
    pub guest: nat,
    pub guest_nice: nat,
}

impl CpuTimesView {
    /// The time spent doing anything but idling. Time spent running guests is
    /// left out.
    pub open spec fn busy(self) -> nat {
        self.user + self.nice + self.system + self.iowait + self.irq + self.softirq + self.steal
    }

    /// The busy time and the idle time together.
    pub open spec fn total(self) -> nat {
        self.busy() + self.idle
    }

    /// Whether every interval is one that a tick count can give.
    pub open spec fn bounded(self) -> bool {
        &&& self.user <= max_interval()
        &&& self.nice <= max_interval()
        &&& self.system <= max_interval()
        &&& self.idle <= max_interval()
        &&& self.iowait <= max_interval()
        &&& self.irq <= max_interval()
        &&& self.softirq <= max_interval()
        &&& self.steal <= max_interval()
        &&& self.guest <= max_interval()
        &&& self.guest_nice <= max_interval()
    }
}

/// The numeric fields of a line of counters: its tokens but the first, which
/// is the label.
pub open spec fn numeric_fields(line: Seq<char>) -> Seq<Seq<char>> {
    let t = tokens(line);
    if t.len() == 0 {
        t
    } else {
        t.drop_first()
    }
}

/// How many of `fields`, from the first on, write a tick count.
pub open spec fn valid_fields(fields: Seq<Seq<char>>) -> nat {
    leading(fields, |t: Seq<char>| count_of(t) is Ok)
}

/// The interval that the field at position `i` stands for.
pub open spec fn interval_at(fields: Seq<Seq<char>>, i: int, ticks_per_second: nat) -> nat
    recommends
        0 <= i < fields.len(),
        count_of(fields[i]) is Ok,
        ticks_per_second > 0,
{
    ticks_to_nanos(count_of(fields[i])->Ok_0 as nat, ticks_per_second)
}

/// The record that ten tick counts stand for, in the order in which the
/// kernel writes them.
pub open spec fn record_of(fields: Seq<Seq<char>>, ticks_per_second: nat) -> CpuTimesView
    recommends
        fields.len() == FIELD_COUNT,
        valid_fields(fields) == fields.len(),
        ticks_per_second > 0,
{
    CpuTimesView {
        user: interval_at(fields, 0, ticks_per_second),
        nice: interval_at(fields, 1, ticks_per_second),
        system: interval_at(fields, 2, ticks_per_second),
        idle: interval_at(fields, 3, ticks_per_second),
        iowait: interval_at(fields, 4, ticks_per_second),
        irq: interval_at(fields, 5, ticks_per_second),
        softirq: interval_at(fields, 6, ticks_per_second),
        steal: interval_at(fields, 7, ticks_per_second),
        guest: interval_at(fields, 8, ticks_per_second),
        guest_nice: interval_at(fields, 9, ticks_per_second),
    }
}

/// What one line of counters decodes to. The fields are read from left to
/// right and the first that writes no tick count is reported; where all of
/// them do, there must be ten.
pub open spec fn decode_line(line: Seq<char>, ticks_per_second: nat) -> Result<
    CpuTimesView,
    DecodeErrorView,
>
    recommends
        ticks_per_second > 0,
{
    let fields = numeric_fields(line);
    let k = valid_fields(fields);
    if k < fields.len() {
        Err(
            DecodeErrorView::InvalidField {
                index: k,
                token: fields[k as int],
                cause: count_of(fields[k as int])->Err_0,
            },
        )
    } else if fields.len() != FIELD_COUNT {
        Err(DecodeErrorView::FieldCount { expected: FIELD_COUNT as nat, actual: fields.len() })
    } else {
        Ok(record_of(fields, ticks_per_second))
    }
}

/// The mathematical value of what decoding a line returns.
pub open spec fn result_view(r: Result<CpuTimes, DecodeError>) -> Result<
    CpuTimesView,
    DecodeErrorView,
> {
    match r {
        Ok(times) => Ok(times@),
        Err(e) => Err(e@),
    }
}

impl View for CpuTimes {
    type V = CpuTimesView;

    closed spec fn view(&self) -> CpuTimesView {
        CpuTimesView {
            user: self.user@,
            nice: self.nice@,
            system: self.system@,
            idle: self.idle@,
            iowait: self.iowait@,
            irq: self.irq@,
            softirq: self.softirq@,
            steal: self.steal@,
            guest: self.guest@,
            guest_nice: self.guest_nice@,
        }
    }
}

impl CpuTimes {
    /// A record holds only intervals that tick counts can give, so that their
    /// sums are within reach of a [`Duration`].
    #[verifier::type_invariant]
    pub closed spec fn well_formed(&self) -> bool {
        self@.bounded()
    }

    /// Two records with the same intervals are the same record.
    pub proof fn lemma_view_injective(a: CpuTimes, b: CpuTimes)
        requires
            a@ == b@,
        ensures
            a == b,
    {
        Duration::lemma_view_injective(a.user, b.user);
        Duration::lemma_view_injective(a.nice, b.nice);
        Duration::lemma_view_injective(a.system, b.system);
        Duration::lemma_view_injective(a.idle, b.idle);
        Duration::lemma_view_injective(a.iowait, b.iowait);
        Duration::lemma_view_injective(a.irq, b.irq);
        Duration::lemma_view_injective(a.softirq, b.softirq);
        Duration::lemma_view_injective(a.steal, b.steal);
        Duration::lemma_view_injective(a.guest, b.guest);
        Duration::lemma_view_injective(a.guest_nice, b.guest_nice);
    }

    /// Decodes one line of counters: a label, then ten tick counts, separated
    /// by white space. Each count becomes the interval that it lasts at
    /// `ticks_per_second` ticks to the second.
    pub fn from_str(s: &str, ticks_per_second: u64) -> (r: Result<CpuTimes, DecodeError>)
        requires
            ticks_per_second > 0,
        ensures
            result_view(r) == decode_line(s@, ticks_per_second as nat),
    {
        let chars = chars_of(s);
        assert(chars@.subrange(0, chars@.len() as int) =~= s@);
        decode_at(s, chars.as_slice(), 0, chars.len(), ticks_per_second)
    }

    /// Time spent by normal processes executing in user mode.
    pub fn user(&self) -> (d: Duration)
        ensures
            d@ == self@.user,
    {
        self.user
    }

    /// Time spent by niced processes executing in user mode.
    pub fn nice(&self) -> (d: Duration)
        ensures
            d@ == self@.nice,
    {
        self.nice
    }

    /// Time spent by processes executing in kernel mode.
    pub fn system(&self) -> (d: Duration)
        ensures
            d@ == self@.system,
    {
        self.system
    }

    /// Time spent doing nothing.
    pub fn idle(&self) -> (d: Duration)
        ensures
            d@ == self@.idle,
    {
        self.idle
    }

    /// Time spent waiting for input or output to complete.
    pub fn iowait(&self) -> (d: Duration)
        ensures
            d@ == self@.iowait,
    {
        self.iowait
    }

    /// Time spent servicing hardware interrupts.
    pub fn irq(&self) -> (d: Duration)
        ensures
            d@ == self@.irq,
    {
        self.irq
    }

    /// Time spent servicing software interrupts.
    pub fn softirq(&self) -> (d: Duration)
        ensures
            d@ == self@.softirq,
    {
        self.softirq
    }

    /// Time spent by other operating systems running in a virtualized
    /// environment.
    pub fn steal(&self) -> (d: Duration)
        ensures
            d@ == self@.steal,
    {
        self.steal
    }

    /// Time spent running a virtual CPU for guest operating systems.
    pub fn guest(&self) -> (d: Duration)
        ensures
            d@ == self@.guest,
    {
        self.guest
    }

    /// Time spent running a niced guest.
    pub fn guest_nice(&self) -> (d: Duration)
        ensures
            d@ == self@.guest_nice,
    {
        self.guest_nice
    }

    /// Time spent doing anything but idling: the sum of the user, nice,
    /// system, iowait, irq, softirq and steal times.
    pub fn busy(&self) -> (d: Duration)
        ensures
            d@ == self@.busy(),
            d@ == self@.user + self@.nice + self@.system + self@.iowait + self@.irq
                + self@.softirq + self@.steal,
    {
        proof {
            use_type_invariant(self);
        }
        Duration::from_nanos(
            self.user.as_nanos() + self.system.as_nanos() + self.nice.as_nanos()
                + self.iowait.as_nanos() + self.irq.as_nanos() + self.softirq.as_nanos()
                + self.steal.as_nanos(),
        )
    }

    /// The busy time and the idle time together.
    pub fn total(&self) -> (d: Duration)
        ensures
            d@ == self@.total(),
            d@ == self@.busy() + self@.idle,
    {
        proof {
            use_type_invariant(self);
        }
        Duration::from_nanos(self.busy().as_nanos() + self.idle.as_nanos())
    }
}

/// The interval that `ticks` ticks last, which a record can hold.
fn interval(ticks: Count, ticks_per_second: u64) -> (d: Duration)
    requires
        ticks_per_second > 0,
    ensures
        d@ == ticks_to_nanos(ticks as nat, ticks_per_second as nat),
        d@ <= max_interval(),
{
    proof {
        lemma_div_round_bound((ticks as nat) * (NANOS_PER_SEC as nat), ticks_per_second as nat);
        assert((ticks as nat) * (NANOS_PER_SEC as nat) <= max_interval()) by (nonlinear_arith)
            requires
                ticks <= Count::MAX,
        ;
    }
    Duration::from_ticks(ticks, ticks_per_second)
}

/// Decodes the line that `chars` holds from `start` up to `end`. `text` holds
/// the same characters as `chars`; the token of an error is cut from it.
pub(crate) fn decode_at(
    text: &str,
    chars: &[char],
    start: usize,
    end: usize,
    ticks_per_second: u64,
) -> (r: Result<CpuTimes, DecodeError>)
    requires
        chars@ == text@,
        start <= end <= chars@.len(),
        ticks_per_second > 0,
    ensures
        result_view(r) == decode_line(
            chars@.subrange(start as int, end as int),
            ticks_per_second as nat,
        ),
{
    let ghost fields = numeric_fields(chars@.subrange(start as int, end as int));
    let label_start = skip_whitespace(chars, start, end);
    let label_end = skip_word(chars, label_start, end);
    proof {
        lemma_tokens_step(chars@, start as int, end as int);
        if label_start < label_end {
            assert(fields =~= tokens(chars@.subrange(label_end as int, end as int)));
        } else {
            lemma_tokens_step(chars@, label_end as int, end as int);
        }
    }
    let mut pos: usize = label_end;
    let mut counts: Vec<Count> = Vec::new();
    let ghost mut done: Seq<Seq<char>> = Seq::empty();
    loop
        invariant
            chars@ == text@,
            start <= pos <= end <= chars@.len(),
            ticks_per_second > 0,
            fields == numeric_fields(chars@.subrange(start as int, end as int)),
            fields == done + tokens(chars@.subrange(pos as int, end as int)),
            counts@.len() == done.len(),
            forall|i: int|
                0 <= i < done.len() ==> count_of(#[trigger] done[i]) == Ok::<Count, ParseCause>(
                    counts@[i],
                ),
        ensures
            fields == done,
        decreases end - pos,
    {
        let token_start = skip_whitespace(chars, pos, end);
        let token_end = skip_word(chars, token_start, end);
        proof {
            lemma_tokens_step(chars@, pos as int, end as int);
        }
        if token_start == token_end {
            assert(fields =~= done);
            break ;
        }
        let ghost token = chars@.subrange(token_start as int, token_end as int);
        assert(fields =~= done.push(token) + tokens(chars@.subrange(token_end as int, end as int)));
        match parse_count_at(chars, token_start, token_end) {
            Ok(n) => {
                counts.push(n);
                proof {
                    done = done.push(token);
                }
            },
            Err(cause) => {
                let token_text = text.substring_char(token_start, token_end).to_owned();
                proof {
                    let is_count = |t: Seq<char>| count_of(t) is Ok;
                    assert(fields[done.len() as int] == token);
                    assert forall|i: int| 0 <= i < done.len() implies is_count(
                        #[trigger] fields[i],
                    ) by {
                        assert(fields[i] == done[i]);
                    }
                    lemma_leading_is(fields, is_count, done.len());
                }
                return Err(
                    DecodeError::InvalidField { index: counts.len(), token: token_text, cause },
                );
            },
        }
        pos = token_end;
    }
    proof {
        let is_count = |t: Seq<char>| count_of(t) is Ok;
        assert forall|i: int| 0 <= i < fields.len() implies is_count(#[trigger] fields[i]) by {}
        lemma_leading_is(fields, is_count, fields.len());
    }
    if counts.len() != FIELD_COUNT {
        return Err(DecodeError::FieldCount { expected: FIELD_COUNT, actual: counts.len() });
    }
    Ok(
        CpuTimes {
            user: interval(counts[0], ticks_per_second),
            nice: interval(counts[1], ticks_per_second),
            system: interval(counts[2], ticks_per_second),
            idle: interval(counts[3], ticks_per_second),
            iowait: interval(counts[4], ticks_per_second),
            irq: interval(counts[5], ticks_per_second),
            softirq: interval(counts[6], ticks_per_second),
            steal: interval(counts[7], ticks_per_second),
            guest: interval(counts[8], ticks_per_second),
            guest_nice: interval(counts[9], ticks_per_second),
        },
    )
}

} // verus!
