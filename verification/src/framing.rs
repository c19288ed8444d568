use vstd::prelude::*;
use vstd::utf8::valid_utf8;

verus! {

/// Where the scan over a datagram stands: how deep in braces it is, whether it
/// is inside a string and just after a backslash there, and where the object
/// being read began.
pub struct ScanState {
    pub depth: int,
    pub in_string: bool,
    pub escape: bool,
    pub start: int,
}

pub open spec fn initial_scan() -> ScanState {
    ScanState { depth: 0, in_string: false, escape: false, start: 0 }
}

/// The scan after the byte `b` at position `i`, and the object that this byte
/// closes, if any, as the range `[start, i + 1)`.
pub open spec fn scan_step(s: ScanState, b: u8, i: int) -> (ScanState, Option<(int, int)>) {
    if b == 0x22u8 && !s.escape {
        (ScanState { in_string: !s.in_string, ..s }, None)
    } else if b == 0x5cu8 && s.in_string {
        (ScanState { escape: !s.escape, ..s }, None)
    } else if b == 0x7bu8 && !s.in_string {
        (ScanState { depth: s.depth + 1, ..s }, None)
    } else if b == 0x7du8 && !s.in_string {
        if s.depth - 1 == 0 {
            (ScanState { depth: 0, start: i + 1, ..s }, Some((s.start, i + 1)))
        } else {
            (ScanState { depth: s.depth - 1, ..s }, None)
        }
    } else {
        (ScanState { escape: false, ..s }, None)
    }
}

/// The scan over all of `bytes`, with the ranges of the objects it closed.
pub open spec fn scan(bytes: Seq<u8>) -> (ScanState, Seq<(int, int)>)
    decreases bytes.len(),
{
    if bytes.len() == 0 {
        (initial_scan(), Seq::empty())
    } else {
        let (s, frames) = scan(bytes.drop_last());
        let (next, closed) = scan_step(s, bytes.last(), bytes.len() - 1);
        match closed {
            Some(r) => (next, frames.push(r)),
            None => (next, frames),
        }
    }
}

pub open spec fn ranges_view(ranges: Seq<(usize, usize)>) -> Seq<(int, int)> {
    ranges.map_values(|r: (usize, usize)| (r.0 as int, r.1 as int))
}

/// The range ends at or before `bound` with a `}` and is not empty.
pub open spec fn closes_object_at(r: (usize, usize), data: Seq<u8>, bound: int) -> bool {
    &&& r.0 < r.1 <= bound
    &&& data[r.1 - 1] == 0x7du8
}

pub open spec fn closes_objects(frames: Seq<(usize, usize)>, data: Seq<u8>, bound: int) -> bool {
    forall|k: int| 0 <= k < frames.len() ==> #[trigger] closes_object_at(frames[k], data, bound)
}

/// Splits a datagram of the n2n management protocol into the JSON objects it
/// holds, as byte ranges `[start, end)`. An object closes at the `}` that
/// brings the brace depth outside strings back to zero; bytes between objects
/// belong to the object that follows them.
pub fn split_json_objects(data: &[u8]) -> (frames: Vec<(usize, usize)>)
    requires
        data@.len() <= isize::MAX,
    ensures
        ranges_view(frames@) == scan(data@).1,
        frames@.len() > 0 ==> frames@[0].0 == 0,
        closes_objects(frames@, data@, data@.len() as int),
        forall|k: int|
            0 < k < frames@.len() ==> #[trigger] frames@[k].0 == frames@[k - 1].1,
{
    let mut frames: Vec<(usize, usize)> = Vec::new();
    let mut depth: isize = 0;
    let mut in_string = false;
    let mut escape = false;
    let mut start: usize = 0;
    let mut i: usize = 0;
    proof {
        assert(data@.take(0) =~= Seq::<u8>::empty());
        assert(ranges_view(frames@) =~= Seq::<(int, int)>::empty());
    }
    while i < data.len()
        invariant
            i <= data@.len() <= isize::MAX,
            -(i as int) <= depth <= i,
            start <= i,
            scan(data@.take(i as int)).0 == (ScanState {
                depth: depth as int,
                in_string,
                escape,
                start: start as int,
            }),
            ranges_view(frames@) == scan(data@.take(i as int)).1,
            frames@.len() == 0 ==> start == 0,
            frames@.len() > 0 ==> frames@[0].0 == 0 && start == frames@.last().1,
            closes_objects(frames@, data@, i as int),
            forall|k: int|
                0 < k < frames@.len() ==> #[trigger] frames@[k].0 == frames@[k - 1].1,
        decreases data@.len() - i,
    {
        let b = data[i];
        let ghost before = frames@;
        let ghost old_start = start;
        proof {
            assert(data@.take(i + 1).drop_last() =~= data@.take(i as int));
            assert(data@.take(i + 1).last() == b);
        }
        if b == 0x22u8 && !escape {
            in_string = !in_string;
        } else if b == 0x5cu8 && in_string {
            escape = !escape;
        } else if b == 0x7bu8 && !in_string {
            depth = depth + 1;
        } else if b == 0x7du8 && !in_string {
            depth = depth - 1;
            if depth == 0 {
                frames.push((start, i + 1));
                start = i + 1;
                proof {
                    assert(frames@.drop_last() =~= before);
                    assert(ranges_view(frames@) =~= ranges_view(before).push(
                        (frames@.last().0 as int, frames@.last().1 as int),
                    ));
                }
            }
        } else {
            escape = false;
        }
        assert forall|k: int| 0 <= k < frames@.len() implies closes_object_at(frames@[k], data@, i + 1) by {
            if k < before.len() {
                assert(frames@[k] == before[k]);
                assert(closes_object_at(before[k], data@, i as int));
            } else {
                assert(frames@[k] == (old_start, (i + 1) as usize));
                assert(data@[i as int] == b);
            }
        }
        i = i + 1;
    }
    assert(data@.take(data@.len() as int) =~= data@);
    frames
}

/// What one byte does to the scan. A backslash inside a string escapes
/// exactly the byte after it: every other byte clears the escape. A quote
/// opens or closes a string unless it is escaped. Outside strings `{` goes one
/// level deeper and `}` one level up, and the `}` that comes back to level
/// zero closes the object that began at `start`. Nothing else changes depth.
pub proof fn lemma_scan_step_meaning(s: ScanState, b: u8, i: int)
    requires
        s.escape ==> s.in_string,
    ensures
        scan_step(s, b, i).0.escape ==> scan_step(s, b, i).0.in_string,
        b != 0x5cu8 ==> !scan_step(s, b, i).0.escape,
        b == 0x5cu8 && s.in_string ==> scan_step(s, b, i).0.escape == !s.escape,
        b == 0x5cu8 && !s.in_string ==> !scan_step(s, b, i).0.escape,
        scan_step(s, b, i).0.in_string == (s.in_string != (b == 0x22u8 && !s.escape)),
        scan_step(s, b, i).0.depth == s.depth + (if !s.in_string && b == 0x7bu8 {
            1int
        } else if !s.in_string && b == 0x7du8 {
            -1int
        } else {
            0int
        }),
        scan_step(s, b, i).1 is Some <==> (!s.in_string && b == 0x7du8 && s.depth == 1),
        scan_step(s, b, i).1 matches Some(r) ==> r == (s.start, i + 1) && scan_step(s, b, i).0.start
            == i + 1,
        scan_step(s, b, i).1 is None ==> scan_step(s, b, i).0.start == s.start,
{
}

/// The scan is only ever escaped inside a string.
pub proof fn lemma_scan_escape_inside_string(bytes: Seq<u8>)
    ensures
        scan(bytes).0.escape ==> scan(bytes).0.in_string,
    decreases bytes.len(),
{
    if bytes.len() > 0 {
        lemma_scan_escape_inside_string(bytes.drop_last());
        lemma_scan_step_meaning(scan(bytes.drop_last()).0, bytes.last(), bytes.len() - 1);
    }
}

/// The scan state with its positions moved `offset` bytes further on.
pub open spec fn shift_state(s: ScanState, offset: int) -> ScanState {
    ScanState { start: s.start + offset, ..s }
}

/// Ranges moved `offset` bytes further on.
pub open spec fn shift_ranges(ranges: Seq<(int, int)>, offset: int) -> Seq<(int, int)> {
    ranges.map_values(|r: (int, int)| (r.0 + offset, r.1 + offset))
}

/// Once the scan has closed an object and stands outside any string, what
/// follows is split exactly as it would be on its own, at positions moved by
/// the length of what came before.
pub proof fn lemma_scan_resumes_after_object(before: Seq<u8>, after: Seq<u8>)
    requires
        scan(before).0 == (ScanState {
            depth: 0,
            in_string: false,
            escape: false,
            start: before.len() as int,
        }),
    ensures
        scan(before + after).0 == shift_state(scan(after).0, before.len() as int),
        scan(before + after).1 == scan(before).1 + shift_ranges(
            scan(after).1,
            before.len() as int,
        ),
    decreases after.len(),
{
    let off = before.len() as int;
    if after.len() == 0 {
        assert(before + after =~= before);
        assert(shift_ranges(Seq::<(int, int)>::empty(), off) =~= Seq::<(int, int)>::empty());
        assert(scan(before).1 + Seq::<(int, int)>::empty() =~= scan(before).1);
    } else {
        lemma_scan_resumes_after_object(before, after.drop_last());
        assert((before + after).drop_last() =~= before + after.drop_last());
        assert((before + after).last() == after.last());
        let (s, frames) = scan(after.drop_last());
        let (next, closed) = scan_step(s, after.last(), after.len() - 1);
        match closed {
            Some(r) => {
                assert(shift_ranges(frames.push(r), off) =~= shift_ranges(frames, off).push(
                    (r.0 + off, r.1 + off),
                ));
                assert(scan(before).1 + shift_ranges(frames, off).push((r.0 + off, r.1 + off))
                    =~= (scan(before).1 + shift_ranges(frames, off)).push(
                    (r.0 + off, r.1 + off),
                ));
            },
            None => {},
        }
    }
}

/// Calls `std::str::from_utf8` and reports whether it accepted the bytes,
/// which it does exactly on well-formed UTF-8.
#[verifier::external_body]
fn is_utf8(data: &[u8]) -> (ok: bool)
    ensures
        ok == valid_utf8(data@),
{
    std::str::from_utf8(data).is_ok()
}

/// The objects of a datagram, or `None` when the datagram is not UTF-8 text.
pub fn frame_datagram(data: &[u8]) -> (frames: Option<Vec<(usize, usize)>>)
    requires
        data@.len() <= isize::MAX,
    ensures
        match frames {
            Some(f) => {
                &&& valid_utf8(data@)
                &&& ranges_view(f@) == scan(data@).1
                &&& f@.len() > 0 ==> f@[0].0 == 0
                &&& closes_objects(f@, data@, data@.len() as int)
                &&& forall|k: int| 0 < k < f@.len() ==> #[trigger] f@[k].0 == f@[k - 1].1
            },
            None => !valid_utf8(data@),
        },
{
    if is_utf8(data) {
        Some(split_json_objects(data))
    } else {
        None
    }
}

} // verus!
