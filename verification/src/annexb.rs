//! Annex B byte streams: NAL units set apart by the start codes `00 00 01`
//! and `00 00 00 01`.

use vstd::prelude::*;
use vstd::slice::slice_subrange;

verus! {

/// NAL unit type of a video parameter set.
pub const NAL_VPS: u8 = 32;

/// NAL unit type of a sequence parameter set.
pub const NAL_SPS: u8 = 33;

/// NAL unit type of a picture parameter set.
pub const NAL_PPS: u8 = 34;

/// A three-byte start code begins at `i` and at least one byte follows it.
pub open spec fn start_code_3(data: Seq<u8>, i: int) -> bool {
    &&& 0 <= i
    &&& i + 3 < data.len()
    &&& data[i] == 0
    &&& data[i + 1] == 0
    &&& data[i + 2] == 1
}

/// A four-byte start code begins at `i` and at least one byte follows it.
pub open spec fn start_code_4(data: Seq<u8>, i: int) -> bool {
    &&& 0 <= i
    &&& i + 4 < data.len()
    &&& data[i] == 0
    &&& data[i + 1] == 0
    &&& data[i + 2] == 0
    &&& data[i + 3] == 1
}

/// A start code that the splitter honours begins at `i`. One that ends the
/// stream, with no byte after it, is none.
pub open spec fn start_code_at(data: Seq<u8>, i: int) -> bool {
    start_code_3(data, i) || start_code_4(data, i)
}

/// First byte after the start code that begins at `i`.
pub open spec fn payload_start(data: Seq<u8>, i: int) -> int {
    if data[i + 2] == 1 {
        i + 3
    } else {
        i + 4
    }
}

/// Position of the first start code at or after `from`, or the length of the
/// stream where there is none.
pub open spec fn next_start_code(data: Seq<u8>, from: int) -> int
    decreases data.len() - from,
{
    if from >= data.len() {
        data.len() as int
    } else if start_code_at(data, from) {
        from
    } else {
        next_start_code(data, from + 1)
    }
}

/// The units of a stream whose next payload begins at `start`: each runs up
/// to the next start code, or to the end of the stream, and one without a
/// byte is passed over.
pub open spec fn units_from(data: Seq<u8>, start: int) -> Seq<(int, int)>
    decreases data.len() - start,
{
    let end = next_start_code(data, start);
    if end >= data.len() {
        if start < data.len() {
            seq![(start, data.len() as int)]
        } else {
            Seq::empty()
        }
    } else {
        proof {
            lemma_next_start_code(data, start);
        }
        let rest = units_from(data, payload_start(data, end));
        if start < end {
            seq![(start, end)] + rest
        } else {
            rest
        }
    }
}

/// Where the NAL units of a stream lie: for each its first byte and the byte
/// after its last, in stream order. What stands before the first start code
/// belongs to no unit.
pub open spec fn nal_spans(data: Seq<u8>) -> Seq<(int, int)> {
    let first = next_start_code(data, 0);
    if first >= data.len() {
        Seq::empty()
    } else {
        units_from(data, payload_start(data, first))
    }
}

/// The NAL units of a stream, start codes taken off.
pub open spec fn nal_units(data: Seq<u8>) -> Seq<Seq<u8>> {
    Seq::new(
        nal_spans(data).len(),
        |k: int| data.subrange(nal_spans(data)[k].0, nal_spans(data)[k].1),
    )
}

/// The first start code at or after `from` lies between `from` and the end of
/// the stream, is a start code unless it is the end, and none comes before it.
pub proof fn lemma_next_start_code(data: Seq<u8>, from: int)
    ensures
        from <= data.len() ==> from <= next_start_code(data, from) <= data.len(),
        next_start_code(data, from) < data.len() ==> start_code_at(
            data,
            next_start_code(data, from),
        ),
        forall|j: int| from <= j < next_start_code(data, from) ==> !start_code_at(data, j),
    decreases data.len() - from,
{
    if from < data.len() && !start_code_at(data, from) {
        lemma_next_start_code(data, from + 1);
    }
}

/// Where no start code begins in `from..end`, and `end` is one or the end of
/// the stream, the first start code at or after `from` is `end`.
pub proof fn lemma_next_start_code_is(data: Seq<u8>, from: int, end: int)
    requires
        from <= end <= data.len(),
        forall|j: int| from <= j < end ==> !start_code_at(data, j),
        end == data.len() || start_code_at(data, end),
    ensures
        next_start_code(data, from) == end,
    decreases end - from,
{
    if from < end {
        lemma_next_start_code_is(data, from + 1, end);
    }
}

/// Splits an Annex B stream into its NAL units.
///
/// A unit begins after a start code and ends before the next one, or with the
/// stream. Bytes before the first start code are dropped, and so is a unit
/// that would be empty. A start code counts only where a byte follows it.
pub fn parse_nal_units<'a>(data: &'a [u8]) -> (units: Vec<&'a [u8]>)
    ensures
        units@.len() == nal_units(data@).len(),
        forall|k: int| 0 <= k < units@.len() ==> (#[trigger] units@[k])@ == nal_units(data@)[k],
{
    let mut units: Vec<&'a [u8]> = Vec::new();
    let mut start_idx: usize = 0;
    let mut found_start = false;
    let len: usize = data.len();
    let limit: usize = len.saturating_sub(3);
    let ghost mut spans: Seq<(int, int)> = Seq::empty();
    let mut i: usize = 0;
    while i < limit
        invariant
            len == data@.len(),
            limit == if len >= 3 { len - 3 } else { 0 },
            i <= limit,
            units@.len() == spans.len(),
            forall|k: int|
                0 <= k < spans.len() ==> (#[trigger] units@[k])@ == data@.subrange(
                    spans[k].0,
                    spans[k].1,
                ),
            !found_start ==> spans.len() == 0 && forall|j: int|
                0 <= j < i ==> !start_code_at(data@, j),
            found_start ==> {
                &&& start_idx < len
                &&& nal_spans(data@) == spans + units_from(data@, start_idx as int)
                &&& forall|j: int| start_idx <= j < i ==> !start_code_at(data@, j)
                &&& forall|j: int|
                    i <= j < start_idx && start_code_at(data@, j) ==> payload_start(data@, j)
                        == start_idx
            },
        decreases limit - i,
    {
        let three = data[i] == 0 && data[i + 1] == 0 && data[i + 2] == 1;
        let four = i + 4 < len && data[i] == 0 && data[i + 1] == 0 && data[i + 2] == 0 && data[i
            + 3] == 1;
        assert(three == start_code_3(data@, i as int));
        assert(four == start_code_4(data@, i as int));
        if three || four {
            let next_idx: usize = if data[i + 2] == 1 {
                i + 3
            } else {
                i + 4
            };
            assert(next_idx == payload_start(data@, i as int));
            if found_start && start_idx < i {
                proof {
                    lemma_next_start_code_is(data@, start_idx as int, i as int);
                    assert(spans + units_from(data@, start_idx as int) =~= spans.push(
                        (start_idx as int, i as int),
                    ) + units_from(data@, next_idx as int));
                    spans = spans.push((start_idx as int, i as int));
                }
                units.push(slice_subrange(data, start_idx, i));
            } else if found_start {
                proof {
                    if start_idx == i {
                        lemma_next_start_code_is(data@, start_idx as int, i as int);
                    }
                }
            } else {
                proof {
                    lemma_next_start_code_is(data@, 0, i as int);
                }
            }
            start_idx = next_idx;
            found_start = true;
        }
        i = i + 1;
    }
    if found_start && start_idx < len {
        proof {
            lemma_next_start_code_is(data@, start_idx as int, len as int);
            assert(spans + units_from(data@, start_idx as int) =~= spans.push(
                (start_idx as int, len as int),
            ));
            spans = spans.push((start_idx as int, len as int));
        }
        units.push(slice_subrange(data, start_idx, len));
    } else {
        proof {
            lemma_next_start_code_is(data@, 0, len as int);
        }
    }
    units
}

/// `start..end` is a NAL unit of the stream: it holds at least one byte, it
/// begins right after a start code, no start code begins within it, and it
/// ends where the next start code begins or with the stream.
pub open spec fn is_unit_span(data: Seq<u8>, start: int, end: int) -> bool {
    &&& 0 <= start < end <= data.len()
    &&& exists|m: int| #[trigger] start_code_at(data, m) && payload_start(data, m) == start
    &&& forall|j: int| start <= j < end ==> !#[trigger] start_code_at(data, j)
    &&& (end == data.len() || start_code_at(data, end))
}

/// Every start code that begins before `start` has its payload begin at
/// `start` or before.
pub open spec fn codes_before_are_spent(data: Seq<u8>, start: int) -> bool {
    forall|m: int| m < start && #[trigger] start_code_at(data, m) ==> payload_start(data, m) <= start
}

/// Of two start codes, the payload of the later one begins no earlier, and
/// where the later one begins within the earlier one, both payloads begin
/// at the same byte.
pub proof fn lemma_start_codes_overlap(data: Seq<u8>, m: int, n: int)
    requires
        start_code_at(data, m),
        start_code_at(data, n),
        m < n,
    ensures
        payload_start(data, m) <= payload_start(data, n),
        n < payload_start(data, m) ==> payload_start(data, n) == payload_start(data, m),
{
}

/// After a start code, the codes before its payload are spent.
pub proof fn lemma_spent_after_code(data: Seq<u8>, start: int, code: int)
    requires
        codes_before_are_spent(data, start),
        start <= code,
        start_code_at(data, code),
        forall|j: int| start <= j < code ==> !#[trigger] start_code_at(data, j),
    ensures
        codes_before_are_spent(data, payload_start(data, code)),
{
    assert forall|m: int| m < payload_start(data, code) && #[trigger] start_code_at(
        data,
        m,
    ) implies payload_start(data, m) <= payload_start(data, code) by {
        if m < code {
            if m >= start {
                assert(!start_code_at(data, m));
            }
        } else if m > code {
            lemma_start_codes_overlap(data, code, m);
        }
    }
}

/// What holds of the units found from a payload start on: each is a NAL
/// unit that begins at `start` or later, and they come in stream order, a
/// start code between any two.
pub proof fn lemma_units_from(data: Seq<u8>, start: int)
    requires
        0 <= start,
        exists|m: int| #[trigger] start_code_at(data, m) && payload_start(data, m) == start,
    ensures
        forall|k: int|
            0 <= k < units_from(data, start).len() ==> start <= (#[trigger] units_from(
                data,
                start,
            )[k]).0 && is_unit_span(data, units_from(data, start)[k].0, units_from(data, start)[k].1),
        forall|k: int, l: int|
            0 <= k < l < units_from(data, start).len() ==> (#[trigger] units_from(
                data,
                start,
            )[k]).1 < (#[trigger] units_from(data, start)[l]).0,
    decreases data.len() - start,
{
    let end = next_start_code(data, start);
    lemma_next_start_code(data, start);
    let units = units_from(data, start);
    if end < data.len() {
        let next = payload_start(data, end);
        let rest = units_from(data, next);
        assert(start_code_at(data, end) && payload_start(data, end) == next);
        lemma_units_from(data, next);
        if start < end {
            assert(units =~= seq![(start, end)] + rest);
            assert(is_unit_span(data, start, end));
            assert forall|k: int| 0 <= k < units.len() implies start <= (#[trigger] units[k]).0
                && is_unit_span(data, units[k].0, units[k].1) by {
                if k > 0 {
                    assert(units[k] == rest[k - 1]);
                }
            }
            assert forall|k: int, l: int| 0 <= k < l < units.len() implies (#[trigger] units[k]).1
                < (#[trigger] units[l]).0 by {
                assert(units[l] == rest[l - 1]);
                if k > 0 {
                    assert(units[k] == rest[k - 1]);
                }
            }
        } else {
            assert(units =~= rest);
            assert forall|k: int| 0 <= k < units.len() implies start <= (#[trigger] units[k]).0
                && is_unit_span(data, units[k].0, units[k].1) by {
                assert(units[k] == rest[k]);
            }
        }
    } else if start < data.len() {
        assert(units =~= seq![(start, data.len() as int)]);
        assert(is_unit_span(data, start, data.len() as int));
    }
}

/// Every NAL unit of the stream that begins at `start` or later is among
/// the units found from `start` on.
pub proof fn lemma_units_from_complete(data: Seq<u8>, start: int, s: int, e: int)
    requires
        0 <= start <= s,
        codes_before_are_spent(data, start),
        is_unit_span(data, s, e),
    ensures
        exists|k: int|
            0 <= k < units_from(data, start).len() && #[trigger] units_from(data, start)[k] == (
                s,
                e,
            ),
    decreases data.len() - start,
{
    let end = next_start_code(data, start);
    lemma_next_start_code(data, start);
    let units = units_from(data, start);
    if s == start {
        lemma_next_start_code_is(data, s, e);
        assert(units[0] == (s, e));
    } else {
        let m = choose|m: int| #[trigger] start_code_at(data, m) && payload_start(data, m) == s;
        assert(m >= start);
        assert(end <= m);
        assert(end < data.len());
        let next = payload_start(data, end);
        if end < m {
            lemma_start_codes_overlap(data, end, m);
        }
        assert(next <= s);
        lemma_spent_after_code(data, start, end);
        lemma_units_from_complete(data, next, s, e);
        let rest = units_from(data, next);
        let k = choose|k: int| 0 <= k < rest.len() && #[trigger] rest[k] == (s, e);
        if start < end {
            assert(units =~= seq![(start, end)] + rest);
            assert(units[k + 1] == rest[k]);
        } else {
            assert(units =~= rest);
            assert(units[k] == rest[k]);
        }
    }
}

/// The spans that the splitter finds are the NAL units of the stream, in
/// stream order with a start code between any two.
pub proof fn lemma_spans_are_units(data: Seq<u8>)
    ensures
        forall|k: int|
            0 <= k < nal_spans(data).len() ==> is_unit_span(
                data,
                (#[trigger] nal_spans(data)[k]).0,
                nal_spans(data)[k].1,
            ),
        forall|k: int, l: int|
            0 <= k < l < nal_spans(data).len() ==> (#[trigger] nal_spans(data)[k]).1 < (
            #[trigger] nal_spans(data)[l]).0,
{
    let first = next_start_code(data, 0);
    lemma_next_start_code(data, 0);
    if first < data.len() {
        assert(start_code_at(data, first));
        lemma_units_from(data, payload_start(data, first));
    }
}

/// Every NAL unit of the stream is among the spans that the splitter finds.
pub proof fn lemma_units_are_found(data: Seq<u8>, start: int, end: int)
    requires
        is_unit_span(data, start, end),
    ensures
        exists|k: int|
            0 <= k < nal_spans(data).len() && #[trigger] nal_spans(data)[k] == (start, end),
{
    let first = next_start_code(data, 0);
    lemma_next_start_code(data, 0);
    let m = choose|m: int| #[trigger] start_code_at(data, m) && payload_start(data, m) == start;
    assert(first <= m);
    let begin = payload_start(data, first);
    if first < m {
        lemma_start_codes_overlap(data, first, m);
    }
    assert(begin <= start);
    assert(codes_before_are_spent(data, 0));
    lemma_spent_after_code(data, 0, first);
    lemma_units_from_complete(data, begin, start, end);
    let units = units_from(data, begin);
    let k = choose|k: int| 0 <= k < units.len() && #[trigger] units[k] == (start, end);
    assert(nal_spans(data) == units);
    assert(nal_spans(data)[k] == (start, end));
}

/// A stream without a start code has no NAL units.
pub proof fn lemma_no_start_code_no_units(data: Seq<u8>)
    requires
        forall|i: int| !#[trigger] start_code_at(data, i),
    ensures
        nal_units(data).len() == 0,
{
    lemma_next_start_code(data, 0);
}

/// The four-byte start code.
pub open spec fn long_start_code() -> Seq<u8> {
    seq![0u8, 0u8, 0u8, 1u8]
}

/// The stream that holds `units` in order, each behind a four-byte start
/// code.
pub open spec fn framed(units: Seq<Seq<u8>>) -> Seq<u8>
    decreases units.len(),
{
    if units.len() == 0 {
        Seq::empty()
    } else {
        long_start_code() + units[0] + framed(units.drop_first())
    }
}

/// A unit that framing keeps apart from its neighbours: it holds a byte,
/// does not end in a zero, and holds no two zeros in a row.
pub open spec fn is_framable(unit: Seq<u8>) -> bool {
    &&& unit.len() > 0
    &&& unit.last() != 0
    &&& forall|i: int| 0 <= i < unit.len() - 1 ==> !(#[trigger] unit[i] == 0 && unit[i + 1] == 0)
}

/// Where a framable unit lies in a stream, no start code begins within it.
proof fn lemma_no_code_in_unit(data: Seq<u8>, start: int, unit: Seq<u8>)
    requires
        is_framable(unit),
        0 <= start,
        start + unit.len() <= data.len(),
        data.subrange(start, start + unit.len()) == unit,
    ensures
        forall|j: int| start <= j < start + unit.len() ==> !#[trigger] start_code_at(data, j),
{
    let end = start + unit.len();
    assert forall|j: int| start <= j < end implies !#[trigger] start_code_at(data, j) by {
        assert(data[j] == data.subrange(start, end)[j - start]);
        if j < end - 1 {
            assert(data[j + 1] == data.subrange(start, end)[j - start + 1]);
            assert(!(unit[j - start] == 0 && unit[j - start + 1] == 0));
        } else {
            assert(data[j] == unit.last());
        }
    }
}

/// Where the parts of a framed stream lie: behind `head` the start code,
/// then `unit`, then `rest`.
proof fn lemma_framed_layout(head: Seq<u8>, unit: Seq<u8>, rest: Seq<u8>)
    ensures
        ({
            let data = head + long_start_code() + unit + rest;
            let code = head.len() as int;
            let start = code + 4;
            let end = start + unit.len();
            &&& data.len() == end + rest.len()
            &&& data[code] == 0
            &&& data[code + 1] == 0
            &&& data[code + 2] == 0
            &&& data[code + 3] == 1
            &&& data.subrange(start, end) == unit
            &&& data.subrange(end, data.len() as int) == rest
        }),
{
    let data = head + long_start_code() + unit + rest;
    let code = head.len() as int;
    let start = code + 4;
    let end = start + unit.len();
    assert(data.subrange(start, end) =~= unit);
    assert(data.subrange(end, data.len() as int) =~= rest);
}

/// Behind any bytes `head`, a start code and the framable unit `unit`, the
/// units found from the start of `unit` on are `unit` and what `tail` holds
/// framed.
proof fn lemma_units_from_framed(head: Seq<u8>, unit: Seq<u8>, tail: Seq<Seq<u8>>)
    requires
        is_framable(unit),
        forall|k: int| 0 <= k < tail.len() ==> is_framable(#[trigger] tail[k]),
    ensures
        ({
            let data = head + long_start_code() + unit + framed(tail);
            let found = units_from(data, head.len() as int + 4);
            &&& found.len() == tail.len() + 1
            &&& data.subrange(found[0].0, found[0].1) == unit
            &&& forall|k: int|
                0 <= k < tail.len() ==> data.subrange(
                    (#[trigger] found[k + 1]).0,
                    found[k + 1].1,
                ) == tail[k]
        }),
    decreases tail.len(),
{
    let data = head + long_start_code() + unit + framed(tail);
    let start: int = head.len() as int + 4;
    let end: int = start + unit.len() as int;
    lemma_framed_layout(head, unit, framed(tail));
    lemma_no_code_in_unit(data, start, unit);
    if tail.len() == 0 {
        lemma_next_start_code_is(data, start, data.len() as int);
    } else {
        let next_unit = tail[0];
        let rest = tail.drop_first();
        let new_head = head + long_start_code() + unit;
        assert(is_framable(next_unit));
        lemma_framed_layout(new_head, next_unit, framed(rest));
        assert(data =~= new_head + long_start_code() + next_unit + framed(rest));
        assert(start_code_4(data, end));
        lemma_next_start_code_is(data, start, end);
        assert forall|k: int| 0 <= k < rest.len() implies is_framable(#[trigger] rest[k]) by {
            assert(rest[k] == tail[k + 1]);
        }
        lemma_units_from_framed(new_head, next_unit, rest);
        let found = units_from(data, start);
        let later = units_from(data, end + 4);
        assert(found == seq![(start, end)] + later);
        lemma_shifted(data, found, later, next_unit, rest, tail, (start, end));
    }
}

/// The units behind the first one are the units of the tail.
proof fn lemma_shifted(
    data: Seq<u8>,
    found: Seq<(int, int)>,
    later: Seq<(int, int)>,
    next_unit: Seq<u8>,
    rest: Seq<Seq<u8>>,
    tail: Seq<Seq<u8>>,
    first: (int, int),
)
    requires
        found == seq![first] + later,
        tail.len() > 0,
        next_unit == tail[0],
        rest == tail.drop_first(),
        later.len() == rest.len() + 1,
        data.subrange(later[0].0, later[0].1) == next_unit,
        forall|k: int|
            0 <= k < rest.len() ==> data.subrange((#[trigger] later[k + 1]).0, later[k + 1].1)
                == rest[k],
    ensures
        found.len() == tail.len() + 1,
        found[0] == first,
        forall|k: int|
            0 <= k < tail.len() ==> data.subrange((#[trigger] found[k + 1]).0, found[k + 1].1)
                == tail[k],
{
    assert forall|k: int| 0 <= k < tail.len() implies data.subrange(
        (#[trigger] found[k + 1]).0,
        found[k + 1].1,
    ) == tail[k] by {
        assert(found[k + 1] == later[k]);
        if k > 0 {
            assert(later[k] == later[(k - 1) + 1]);
            assert(rest[k - 1] == tail[k]);
        }
    }
}

/// Splitting undoes framing: the NAL units of a stream made of framable
/// units, each behind a four-byte start code, are those units.
pub proof fn lemma_split_framed(units: Seq<Seq<u8>>)
    requires
        forall|k: int| 0 <= k < units.len() ==> is_framable(#[trigger] units[k]),
    ensures
        nal_units(framed(units)) == units,
{
    let data = framed(units);
    if units.len() == 0 {
        lemma_next_start_code(data, 0);
        assert(nal_units(data) =~= units);
    } else {
        let unit = units[0];
        let tail = units.drop_first();
        let head = Seq::<u8>::empty();
        assert(is_framable(unit));
        assert(data =~= head + long_start_code() + unit + framed(tail));
        assert forall|k: int| 0 <= k < tail.len() implies is_framable(#[trigger] tail[k]) by {
            assert(tail[k] == units[k + 1]);
        }
        lemma_units_from_framed(head, unit, tail);
        lemma_framed_layout(head, unit, framed(tail));
        assert(start_code_4(data, 0));
        assert(next_start_code(data, 0) == 0);
        assert(payload_start(data, 0) == 4);
        let found = units_from(data, 4);
        assert(nal_spans(data) == found);
        assert forall|k: int| 0 <= k < units.len() implies nal_units(data)[k] == units[k] by {
            if k > 0 {
                assert(found[k] == found[(k - 1) + 1]);
                assert(tail[k - 1] == units[k]);
            }
        }
        assert(nal_units(data) =~= units);
    }
}

} // verus!
