//! The source document: its lines, the aggregate record and the per-core
//! records.

use crate::error::{DecodeError, DecodeErrorView};
use crate::record::{decode_at, decode_line, result_view, CpuTimes, CpuTimesView};
use crate::text::{chars_of, leading, lemma_leading, lemma_leading_at_least, lemma_leading_is};
use vstd::prelude::*;

verus! {

/// The position of the first line feed that `text` holds from `pos` on, or
/// the length of `text` where it holds none.
pub open spec fn line_stop(text: Seq<char>, pos: int) -> int {
    pos + leading(text.skip(pos), |c: char| c != '\n')
}

/// Where the line that begins at `pos` ends: before its line feed, and before
/// a carriage return that stands in front of that line feed.
pub open spec fn line_end(text: Seq<char>, pos: int) -> int {
    let stop = line_stop(text, pos);
    if pos < stop < text.len() && text[stop - 1] == '\r' {
        stop - 1
    } else {
        stop
    }
}

/// Where the line after the one that begins at `pos` begins: behind the line
/// feed, or at the end of `text` where the line has none.
pub open spec fn next_line(text: Seq<char>, pos: int) -> int {
    let stop = line_stop(text, pos);
    if stop < text.len() {
        stop + 1
    } else {
        stop
    }
}

/// The lines of `s`, from first to last. A line ends at a line feed or at the
/// end of `s`; nothing follows a line feed that ends `s`.
pub open spec fn lines(s: Seq<char>) -> Seq<Seq<char>>
    decreases s.len(),
{
    if s.len() == 0 {
        Seq::empty()
    } else {
        proof {
            lemma_leading(s.skip(0), |c: char| c != '\n');
        }
        seq![s.subrange(0, line_end(s, 0))] + lines(s.skip(next_line(s, 0)))
    }
}

/// Whether `line` is one of a single core: it begins with `cpu`.
pub open spec fn is_core_line(line: Seq<char>) -> bool {
    line.len() >= 3 && line[0] == 'c' && line[1] == 'p' && line[2] == 'u'
}

/// The per-core lines of `text`: those that follow its first line without a
/// gap, up to the first that is not of a single core.
pub open spec fn core_lines(text: Seq<char>) -> Seq<Seq<char>> {
    let all = lines(text);
    if all.len() == 0 {
        all
    } else {
        let rest = all.drop_first();
        rest.take(leading(rest, |l: Seq<char>| is_core_line(l)) as int)
    }
}

/// How many of `ls`, from the first on, decode to a record.
pub open spec fn decodable_lines(ls: Seq<Seq<char>>, ticks_per_second: nat) -> nat {
    leading(ls, |l: Seq<char>| decode_line(l, ticks_per_second) is Ok)
}

/// What the lines `ls` decode to, one after the other: the record of each,
/// or the error of the first that has none.
pub open spec fn decode_lines(ls: Seq<Seq<char>>, ticks_per_second: nat) -> Result<
    Seq<CpuTimesView>,
    DecodeErrorView,
> {
    let k = decodable_lines(ls, ticks_per_second);
    if k < ls.len() {
        Err(decode_line(ls[k as int], ticks_per_second)->Err_0)
    } else {
        Ok(Seq::new(ls.len(), |i: int| decode_line(ls[i], ticks_per_second)->Ok_0))
    }
}

/// The record of the whole machine, which the first line of `text` holds.
pub open spec fn aggregate_times(text: Seq<char>, ticks_per_second: nat) -> Result<
    CpuTimesView,
    DecodeErrorView,
> {
    let all = lines(text);
    if all.len() == 0 {
        Err(DecodeErrorView::EmptySource)
    } else {
        decode_line(all[0], ticks_per_second)
    }
}

/// The records of the single cores, in the order of their lines in `text`.
pub open spec fn per_cpu_times(text: Seq<char>, ticks_per_second: nat) -> Result<
    Seq<CpuTimesView>,
    DecodeErrorView,
> {
    let ls = core_lines(text);
    if ls.len() == 0 {
        Err(DecodeErrorView::MissingPerCpu)
    } else {
        decode_lines(ls, ticks_per_second)
    }
}

/// The mathematical value of what reading the per-core records returns.
pub open spec fn records_view(r: Result<Vec<CpuTimes>, DecodeError>) -> Result<
    Seq<CpuTimesView>,
    DecodeErrorView,
> {
    match r {
        Ok(v) => Ok(Seq::new(v@.len(), |i: int| v@[i]@)),
        Err(e) => Err(e@),
    }
}

/// The line that begins at `pos` lies within `text`: it ends at or before
/// the first line feed from `pos` on, and no line feed stands in it.
pub proof fn lemma_line_bounds(text: Seq<char>, pos: int)
    requires
        0 <= pos <= text.len(),
    ensures
        pos <= line_end(text, pos) <= line_stop(text, pos) <= next_line(text, pos) <= text.len(),
        pos < text.len() ==> pos < next_line(text, pos),
        line_stop(text, pos) < text.len() ==> text[line_stop(text, pos)] == '\n',
        forall|i: int| pos <= i < line_stop(text, pos) ==> text[i] != '\n',
{
    let s = text.skip(pos);
    lemma_leading(s, |c: char| c != '\n');
    let stop = line_stop(text, pos);
    assert forall|i: int| pos <= i < stop implies text[i] != '\n' by {
        assert(text[i] == s[i - pos]);
    }
    if stop < text.len() {
        assert(text[stop] == s[stop - pos]);
    }
}

/// One step of [`lines`] on what `text` holds from `pos` on: the first line
/// there is the one that begins at `pos`, and the other lines are those of
/// what `text` holds from the beginning of the next line on.
pub proof fn lemma_lines_step(text: Seq<char>, pos: int)
    requires
        0 <= pos < text.len(),
    ensures
        lines(text.skip(pos)) == seq![text.subrange(pos, line_end(text, pos))] + lines(
            text.skip(next_line(text, pos)),
        ),
{
    let s = text.skip(pos);
    lemma_line_bounds(text, pos);
    assert(s.skip(0) =~= s);
    assert(line_stop(s, 0) == line_stop(text, pos) - pos);
    assert(s.subrange(0, line_end(s, 0)) =~= text.subrange(pos, line_end(text, pos)));
    assert(s.skip(next_line(s, 0)) =~= text.skip(next_line(text, pos)));
}

/// Where the line that begins at `pos` ends, and where the next one begins.
pub fn line_bounds(chars: &[char], pos: usize) -> (r: (usize, usize))
    requires
        pos < chars@.len(),
    ensures
        r.0 == line_end(chars@, pos as int),
        r.1 == next_line(chars@, pos as int),
        pos <= r.0 <= r.1 <= chars@.len(),
        pos < r.1,
{
    let n = chars.len();
    let mut stop: usize = pos;
    while stop < n && chars[stop] != '\n'
        invariant
            pos <= stop <= n == chars@.len(),
            forall|j: int| pos <= j < stop ==> chars@[j] != '\n',
        decreases n - stop,
    {
        stop += 1;
    }
    proof {
        assert forall|j: int| 0 <= j < stop - pos implies (#[trigger] chars@.skip(pos as int)[j])
            != '\n' by {}
        lemma_leading_is(chars@.skip(pos as int), |c: char| c != '\n', (stop - pos) as nat);
        lemma_line_bounds(chars@, pos as int);
    }
    let end = if pos < stop && stop < n && chars[stop - 1] == '\r' {
        stop - 1
    } else {
        stop
    };
    let next = if stop < n {
        stop + 1
    } else {
        stop
    };
    (end, next)
}

/// Tells whether the line that `chars` holds from `start` up to `end` is one
/// of a single core.
pub fn line_is_core(chars: &[char], start: usize, end: usize) -> (b: bool)
    requires
        start <= end <= chars@.len(),
    ensures
        b == is_core_line(chars@.subrange(start as int, end as int)),
{
    end - start >= 3 && chars[start] == 'c' && chars[start + 1] == 'p' && chars[start + 2] == 'u'
}

/// Reads from `data`, the text of the kernel's counter file, the times of the
/// whole machine: the record that its first line holds.
pub fn cpu_times(data: &str, ticks_per_second: u64) -> (r: Result<CpuTimes, DecodeError>)
    requires
        ticks_per_second > 0,
    ensures
        result_view(r) == aggregate_times(data@, ticks_per_second as nat),
{
    let chars = chars_of(data);
    if chars.len() == 0 {
        return Err(DecodeError::EmptySource);
    }
    let (end, _) = line_bounds(chars.as_slice(), 0);
    decode_at(data, chars.as_slice(), 0, end, ticks_per_second)
}

/// Reads from `data`, the text of the kernel's counter file, the times of
/// each core: the records of the lines that follow the first and begin with
/// `cpu`, in their order. The first line that does not decode ends the
/// reading with its error.
pub fn cpu_times_percpu(data: &str, ticks_per_second: u64) -> (r: Result<
    Vec<CpuTimes>,
    DecodeError,
>)
    requires
        ticks_per_second > 0,
    ensures
        records_view(r) == per_cpu_times(data@, ticks_per_second as nat),
{
    let chars = chars_of(data);
    let n = chars.len();
    if n == 0 {
        return Err(DecodeError::MissingPerCpu);
    }
    let (_, first) = line_bounds(chars.as_slice(), 0);
    let ghost rest = lines(data@).drop_first();
    let ghost tps = ticks_per_second as nat;
    assert(rest =~= lines(chars@.skip(first as int)));
    let mut pos: usize = first;
    let mut out: Vec<CpuTimes> = Vec::new();
    let ghost mut done: Seq<Seq<char>> = Seq::empty();
    loop
        invariant
            chars@ == data@,
            n == chars@.len(),
            n > 0,
            ticks_per_second > 0,
            tps == ticks_per_second as nat,
            pos <= n,
            rest == lines(data@).drop_first(),
            rest == done + lines(chars@.skip(pos as int)),
            out@.len() == done.len(),
            forall|i: int| 0 <= i < done.len() ==> is_core_line(#[trigger] done[i]),
            forall|i: int|
                0 <= i < done.len() ==> decode_line(#[trigger] done[i], tps) == Ok::<
                    CpuTimesView,
                    DecodeErrorView,
                >(out@[i]@),
        ensures
            core_lines(data@) == done,
        decreases n - pos,
    {
        if pos >= n {
            proof {
                assert(rest =~= done);
                lemma_leading_is(rest, |l: Seq<char>| is_core_line(l), rest.len());
                assert(rest.take(rest.len() as int) =~= rest);
            }
            break ;
        }
        let (end, next) = line_bounds(chars.as_slice(), pos);
        proof {
            lemma_lines_step(chars@, pos as int);
        }
        let ghost line = chars@.subrange(pos as int, end as int);
        assert(rest =~= done.push(line) + lines(chars@.skip(next as int)));
        if !line_is_core(chars.as_slice(), pos, end) {
            proof {
                assert(rest[done.len() as int] == line);
                assert forall|i: int| 0 <= i < done.len() implies is_core_line(
                    #[trigger] rest[i],
                ) by {
                    assert(rest[i] == done[i]);
                }
                lemma_leading_is(rest, |l: Seq<char>| is_core_line(l), done.len());
                assert(rest.take(done.len() as int) =~= done);
            }
            break ;
        }
        match decode_at(data, chars.as_slice(), pos, end, ticks_per_second) {
            Ok(times) => {
                out.push(times);
                proof {
                    done = done.push(line);
                }
            },
            Err(e) => {
                proof {
                    let core = core_lines(data@);
                    let k = done.len();
                    assert forall|i: int| 0 <= i < k + 1 implies is_core_line(
                        #[trigger] rest[i],
                    ) by {
                        if i < k {
                            assert(rest[i] == done[i]);
                        } else {
                            assert(rest[i] == line);
                        }
                    }
                    lemma_leading_at_least(rest, |l: Seq<char>| is_core_line(l), k + 1);
                    lemma_leading(rest, |l: Seq<char>| is_core_line(l));
                    assert(core.len() > k);
                    assert(core[k as int] == line);
                    assert forall|i: int| 0 <= i < k implies decode_line(
                        #[trigger] core[i],
                        tps,
                    ) is Ok by {
                        assert(core[i] == done[i]);
                    }
                    lemma_leading_is(core, |l: Seq<char>| decode_line(l, tps) is Ok, k);
                }
                return Err(e);
            },
        }
        pos = next;
    }
    if out.len() == 0 {
        return Err(DecodeError::MissingPerCpu);
    }
    proof {
        let core = core_lines(data@);
        assert forall|i: int| 0 <= i < core.len() implies decode_line(
            #[trigger] core[i],
            tps,
        ) is Ok by {}
        lemma_leading_is(core, |l: Seq<char>| decode_line(l, tps) is Ok, core.len());
        assert(Seq::new(core.len(), |i: int| decode_line(core[i], tps)->Ok_0) =~= Seq::new(
            out@.len(),
            |i: int| out@[i]@,
        ));
    }
    Ok(out)
}

} // verus!
