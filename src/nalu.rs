//! Annex-B framing: splitting an H.264 byte stream into NAL units at the
//! `00 00 01` and `00 00 00 01` start codes.
use vstd::prelude::*;
use crate::wire::push_all;

verus! {

pub open spec fn four_byte_code_at(s: Seq<u8>, i: int) -> bool {
    0 <= i && i + 3 < s.len() && s[i] == 0 && s[i + 1] == 0 && s[i + 2] == 0 && s[i + 3] == 1
}

pub open spec fn three_byte_code_at(s: Seq<u8>, i: int) -> bool {
    0 <= i && i + 2 < s.len() && s[i] == 0 && s[i + 1] == 0 && s[i + 2] == 1
}

/// A start code at `i`: a 3-byte one is recognised once its three bytes
/// are known; a 4-byte one that begins a byte earlier is met first.
pub open spec fn start_code_at(s: Seq<u8>, i: int) -> bool {
    four_byte_code_at(s, i) || three_byte_code_at(s, i)
}

/// The scan cannot decide position `i` yet: fewer than four bytes remain
/// and they do not hold a 3-byte code, so a 4-byte one may still complete.
pub open spec fn undecided(s: Seq<u8>, i: int) -> bool {
    i + 3 >= s.len() && !three_byte_code_at(s, i)
}

pub open spec fn start_code_len(s: Seq<u8>, i: int) -> int {
    if four_byte_code_at(s, i) {
        4
    } else {
        3
    }
}

/// The NAL units of `s` met when scanning from `i`, where `last` is the
/// position of the last start code seen: every start code closes the unit
/// that began after the previous one; empty units are left out.
pub open spec fn scan(s: Seq<u8>, last: Option<int>, i: int) -> Seq<Seq<u8>>
    decreases s.len() - i,
{
    if i < 0 || undecided(s, i) {
        Seq::empty()
    } else if start_code_at(s, i) {
        let unit = match last {
            Some(p) => s.subrange(p + start_code_len(s, p), i),
            None => Seq::empty(),
        };
        (if unit.len() > 0 {
            seq![unit]
        } else {
            Seq::empty()
        }) + scan(s, Some(i), i + start_code_len(s, i))
    } else {
        scan(s, last, i + 1)
    }
}

/// The position of the last start code met when scanning from `i`.
pub open spec fn last_start(s: Seq<u8>, last: Option<int>, i: int) -> Option<int>
    decreases s.len() - i,
{
    if i < 0 || undecided(s, i) {
        last
    } else if start_code_at(s, i) {
        last_start(s, Some(i), i + start_code_len(s, i))
    } else {
        last_start(s, last, i + 1)
    }
}

/// Every NAL unit of `s` that is closed by a following start code.
pub open spec fn frame(s: Seq<u8>) -> Seq<Seq<u8>> {
    scan(s, None, 0)
}

/// What must be kept of `s` to frame what follows it: from the last start
/// code on, or, before any start code, the last three bytes, which may
/// begin one.
pub open spec fn retained(s: Seq<u8>) -> Seq<u8> {
    match last_start(s, None, 0) {
        Some(p) => s.subrange(p, s.len() as int),
        None => if s.len() > 3 {
            s.subrange(s.len() - 3, s.len() as int)
        } else {
            s
        },
    }
}

/// The last unit of a stream that has ended: what follows the start code
/// that `pending` begins with, when that is not empty.
pub open spec fn trailing(pending: Seq<u8>) -> Seq<Seq<u8>> {
    if start_code_at(pending, 0) && start_code_len(pending, 0) < pending.len() {
        seq![pending.skip(start_code_len(pending, 0))]
    } else {
        Seq::empty()
    }
}

/// No start code at positions `i..j`.
pub open spec fn no_code_between(s: Seq<u8>, i: int, j: int) -> bool {
    forall|k: int| i <= k < j ==> !#[trigger] start_code_at(s, k)
}

proof fn lemma_scan_skip(s: Seq<u8>, last: Option<int>, i: int, j: int)
    requires
        0 <= i <= j,
        no_code_between(s, i, j),
    ensures
        scan(s, last, i) == scan(s, last, j),
        last_start(s, last, i) == last_start(s, last, j),
    decreases j - i,
{
    if i < j && !undecided(s, i) {
        assert(!start_code_at(s, i));
        lemma_scan_skip(s, last, i + 1, j);
    } else if i < j {
        assert(undecided(s, j));
    }
}

proof fn lemma_scan_none(s: Seq<u8>, last: Option<int>, i: int)
    requires
        0 <= i,
        no_code_between(s, i, s.len() as int),
    ensures
        scan(s, last, i) == Seq::<Seq<u8>>::empty(),
        last_start(s, last, i) == last,
    decreases s.len() - i,
{
    if !undecided(s, i) {
        assert(!start_code_at(s, i));
        lemma_scan_none(s, last, i + 1);
    }
}

/// `00 00 00 01` before each unit, all concatenated.
pub open spec fn annex_b(units: Seq<Seq<u8>>) -> Seq<u8>
    decreases units.len(),
{
    if units.len() == 0 {
        Seq::empty()
    } else {
        seq![0u8, 0u8, 0u8, 1u8] + units[0] + annex_b(units.drop_first())
    }
}

/// Every start code of `s` is a 4-byte one (a 3-byte pattern is only the
/// tail of one), and none directly follows another, so no unit is empty.
pub open spec fn four_byte_framed(s: Seq<u8>) -> bool {
    &&& forall|i: int| #[trigger] three_byte_code_at(s, i) ==> i >= 1 && s[i - 1] == 0
    &&& forall|i: int| #[trigger] four_byte_code_at(s, i) ==> !start_code_at(s, i + 4)
}

proof fn lemma_code_is_four(s: Seq<u8>, from: int, i: int)
    requires
        four_byte_framed(s),
        0 <= from <= i,
        start_code_at(s, i),
        no_code_between(s, from, i),
        from == 0 || (from >= 4 && four_byte_code_at(s, from - 4)),
    ensures
        four_byte_code_at(s, i),
{
    if !four_byte_code_at(s, i) {
        assert(three_byte_code_at(s, i));
        assert(s[i - 1] == 0);
        assert(four_byte_code_at(s, i - 1));
        if i - 1 >= from {
            assert(!start_code_at(s, i - 1));
        } else {
            assert(i == from);
            assert(!start_code_at(s, from));
        }
    }
}

proof fn lemma_round_trip_from(s: Seq<u8>, p: int, i: int)
    requires
        four_byte_framed(s),
        four_byte_code_at(s, p),
        p + 4 <= i,
        no_code_between(s, p + 4, i),
    ensures
        last_start(s, Some(p), i) matches Some(l) && p <= l <= s.len() && annex_b(scan(s, Some(p), i))
            == s.subrange(p, l),
    decreases s.len() - i,
{
    if !start_code_at(s, i) && undecided(s, i) {
        assert(annex_b(Seq::<Seq<u8>>::empty()) =~= s.subrange(p, p));
    } else if start_code_at(s, i) {
        lemma_code_is_four(s, p + 4, i);
        assert(i > p + 4) by {
            if i == p + 4 {
                assert(!start_code_at(s, p + 4));
            }
        }
        let unit = s.subrange(p + 4, i);
        lemma_round_trip_from(s, i, i + 4);
        let rest = scan(s, Some(i), i + 4);
        let l = last_start(s, Some(i), i + 4)->0;
        assert(scan(s, Some(p), i) == seq![unit] + rest);
        assert((seq![unit] + rest).drop_first() =~= rest);
        assert(seq![0u8, 0u8, 0u8, 1u8] =~= s.subrange(p, p + 4));
        assert(s.subrange(p, p + 4) + unit + s.subrange(i, l) =~= s.subrange(p, l));
    } else {
        lemma_round_trip_from(s, p, i + 1);
    }
}

/// Round trip: on a stream framed with 4-byte start codes and non-empty
/// units, `00 00 00 01` followed by each framed unit gives back the stream
/// from its first start code on, up to the last one; only bytes that hold
/// no start code are left out before it.
pub proof fn lemma_frame_round_trip(s: Seq<u8>)
    requires
        four_byte_framed(s),
    ensures
        exists|a: int|
            0 <= a && a + annex_b(frame(s)).len() <= s.len() && no_code_between(s, 0, a) && annex_b(frame(s))
                == #[trigger] s.subrange(a, a + annex_b(frame(s)).len()),
{
    let out = annex_b(frame(s));
    let a = lemma_framed_from(s);
    assert(out == s.subrange(a, a + out.len()));
}

proof fn lemma_framed_from(s: Seq<u8>) -> (a: int)
    requires
        four_byte_framed(s),
    ensures
        0 <= a,
        a + annex_b(frame(s)).len() <= s.len(),
        no_code_between(s, 0, a),
        annex_b(frame(s)) == s.subrange(a, a + annex_b(frame(s)).len()),
{
    let first = first_code_from(s, 0);
    if first < 0 {
        lemma_scan_none(s, None, 0);
        assert(annex_b(frame(s)) =~= s.subrange(0, 0));
        0
    } else {
        lemma_code_is_four(s, 0, first);
        lemma_scan_skip(s, None, 0, first);
        assert(scan(s, None, first) =~= scan(s, Some(first), first + 4));
        lemma_round_trip_from(s, first, first + 4);
        first
    }
}

/// The first start code at or after `i`, or -1 when there is none.
proof fn first_code_from(s: Seq<u8>, i: int) -> (p: int)
    requires
        0 <= i,
    ensures
        p < 0 ==> no_code_between(s, i, s.len() as int),
        p >= 0 ==> i <= p && start_code_at(s, p) && no_code_between(s, i, p),
    decreases s.len() - i,
{
    if i >= s.len() {
        -1
    } else if start_code_at(s, i) {
        i
    } else {
        first_code_from(s, i + 1)
    }
}

/// Scanning a suffix of `s` from `b` on is scanning `s` with positions
/// moved by `b`.
proof fn lemma_scan_shift(s: Seq<u8>, b: int, last: Option<int>, i: int)
    requires
        0 <= b <= i,
        b <= s.len(),
        last matches Some(q) ==> b <= q && q + start_code_len(s, q) <= i,
    ensures
        scan(s.subrange(b, s.len() as int), match last {
            Some(q) => Some(q - b),
            None => None,
        }, i - b) == scan(s, last, i),
    decreases s.len() - i,
{
    let t = s.subrange(b, s.len() as int);
    let tl = match last {
        Some(q) => Some(q - b),
        None => None::<int>,
    };
    assert(undecided(t, i - b) == undecided(s, i));
    if !undecided(s, i) {
        assert(start_code_at(t, i - b) == start_code_at(s, i));
        assert(start_code_len(t, i - b) == start_code_len(s, i));
        if start_code_at(s, i) {
            lemma_scan_shift(s, b, Some(i), i + start_code_len(s, i));
            if let Some(q) = last {
                assert(start_code_len(t, q - b) == start_code_len(s, q));
                assert(t.subrange(q - b + start_code_len(t, q - b), i - b) =~= s.subrange(
                    q + start_code_len(s, q),
                    i,
                ));
            }
        } else {
            lemma_scan_shift(s, b, last, i + 1);
        }
    }
}

/// While the scan of `x` has a later start code to reach, scanning `x + y`
/// yields the same units up to the last start code of `x`.
proof fn lemma_scan_prefix(x: Seq<u8>, y: Seq<u8>, last: Option<int>, i: int, p: int)
    requires
        0 <= i,
        last_start(x, last, i) == Some(p),
        last matches Some(q) ==> {
            &&& start_code_at(x, q)
            &&& q + start_code_len(x, q) <= i
            &&& (i == q + start_code_len(x, q) || (i + 2 < x.len() && no_code_between(x, q + start_code_len(x, q), i)))
        },
    ensures
        start_code_at(x, p),
        start_code_len(x + y, p) == start_code_len(x, p),
        scan(x + y, last, i) == scan(x, last, i) + scan(x + y, Some(p), p + start_code_len(x, p)),
    decreases x.len() - i,
{
    let s = x + y;
    if !start_code_at(x, i) && i + 3 >= x.len() {
        let q = last->0;
        assert(undecided(x, i));
        assert(start_code_len(s, q) == start_code_len(x, q));
        assert(no_code_between(s, q + start_code_len(x, q), i)) by {
            assert forall|k: int| q + start_code_len(x, q) <= k < i implies !#[trigger] start_code_at(s, k) by {
                assert(!start_code_at(x, k));
            }
        }
        lemma_scan_skip(s, Some(q), q + start_code_len(x, q), i);
        assert(scan(x, last, i) =~= Seq::<Seq<u8>>::empty());
        assert(scan(s, last, i) =~= scan(x, last, i) + scan(s, Some(p), p + start_code_len(x, p)));
    } else {
        assert(start_code_at(s, i) == start_code_at(x, i));
        assert(start_code_len(s, i) == start_code_len(x, i));
        if start_code_at(x, i) {
            lemma_scan_prefix(x, y, Some(i), i + start_code_len(x, i), p);
            if let Some(q) = last {
                assert(start_code_len(s, q) == start_code_len(x, q));
                assert(s.subrange(q + start_code_len(s, q), i) =~= x.subrange(q + start_code_len(x, q), i));
            }
            let u = match last {
                Some(q) => x.subrange(q + start_code_len(x, q), i),
                None => Seq::empty(),
            };
            let head: Seq<Seq<u8>> = if u.len() > 0 { seq![u] } else { Seq::empty() };
            assert(head + (scan(x, Some(i), i + start_code_len(x, i)) + scan(s, Some(p), p + start_code_len(x, p)))
                =~= (head + scan(x, Some(i), i + start_code_len(x, i))) + scan(s, Some(p), p + start_code_len(x, p)));
        } else {
            lemma_scan_prefix(x, y, last, i + 1, p);
        }
    }
}

/// Framing is independent of how the stream is cut: the units of `x + y`
/// are those of `x`, then those of what is kept of `x` followed by `y`.
pub proof fn lemma_frame_append(x: Seq<u8>, y: Seq<u8>)
    ensures
        frame(x + y) == frame(x) + frame(retained(x) + y),
{
    let s = x + y;
    let n = x.len() as int;
    match last_start(x, None, 0) {
        Some(p) => {
            lemma_scan_prefix(x, y, None, 0, p);
            let t = s.subrange(p, s.len() as int);
            assert(retained(x) + y =~= t);
            assert(start_code_at(t, 0) == start_code_at(s, p));
            assert(start_code_len(t, 0) == start_code_len(s, p));
            lemma_scan_shift(s, p, Some(p), p + start_code_len(s, p));
            assert(scan(t, None, 0) =~= scan(t, Some(0), start_code_len(t, 0)));
        },
        None => {
            let f = first_code_from(x, 0);
            if f >= 0 {
                lemma_scan_skip(x, None, 0, f);
                assert(last_start(x, None, f) != None::<int>) by {
                    lemma_last_start_some(x, Some(f), f + start_code_len(x, f), f);
                }
            }
            lemma_scan_none(x, None, 0);
            let b = if n > 3 { n - 3 } else { 0 };
            assert(retained(x) + y =~= s.subrange(b, s.len() as int));
            assert(no_code_between(s, 0, b)) by {
                assert forall|k: int| 0 <= k < b implies !#[trigger] start_code_at(s, k) by {
                    assert(!start_code_at(x, k));
                }
            }
            lemma_scan_skip(s, None, 0, b);
            lemma_scan_shift(s, b, None, b);
            assert(frame(x) =~= Seq::<Seq<u8>>::empty());
            assert(frame(s) =~= frame(x) + frame(retained(x) + y));
        },
    }
}

proof fn lemma_last_start_some(s: Seq<u8>, last: Option<int>, i: int, q: int)
    requires
        last == Some(q),
    ensures
        last_start(s, last, i) is Some,
    decreases s.len() - i,
{
    if !(i < 0 || undecided(s, i)) {
        if start_code_at(s, i) {
            lemma_last_start_some(s, Some(i), i + start_code_len(s, i), i);
        } else {
            lemma_last_start_some(s, last, i + 1, q);
        }
    }
}

/// Splits an H.264 Annex-B byte stream into NAL units, across chunks.
pub struct NaluParser {
    buffer: Vec<u8>,
}

impl View for NaluParser {
    type V = Seq<u8>;

    /// The bytes held back for the next call.
    closed spec fn view(&self) -> Seq<u8> {
        self.buffer@
    }
}

impl NaluParser {
    pub fn new() -> (p: NaluParser)
        ensures
            p@ == Seq::<u8>::empty(),
    {
        NaluParser { buffer: Vec::new() }
    }

    /// Appends `data` to the held-back bytes and returns every NAL unit
    /// closed by a start code, without start codes; keeps the rest.
    pub fn parse(&mut self, data: &[u8]) -> (nalus: Vec<Vec<u8>>)
        ensures
            nalus@.map_values(|n: Vec<u8>| n@) == frame(old(self)@ + data@),
            final(self)@ == retained(old(self)@ + data@),
    {
        push_all(&mut self.buffer, data);
        let ghost b = self.buffer@;
        assert(b == old(self)@ + data@);
        let mut nalus: Vec<Vec<u8>> = Vec::new();
        let len = self.buffer.len();
        match self.find_start_code_at(0) {
            None => {
                proof {
                    lemma_scan_none(b, None, 0);
                }
                if len > 3 {
                    let mut tail: Vec<u8> = Vec::new();
                    push_all(&mut tail, &self.buffer.as_slice()[len - 3..len]);
                    self.buffer = tail;
                }
                assert(nalus@.map_values(|n: Vec<u8>| n@) =~= frame(b));
                return nalus;
            },
            Some((first, first_len)) => {
                let mut sc_start = first;
                let mut sc_len = first_len;
                proof {
                    lemma_scan_skip(b, None, 0, first as int);
                }
                loop
                    invariant
                        b == old(self)@ + data@,
                        self.buffer@ == b,
                        len == b.len(),
                        start_code_at(b, sc_start as int),
                        sc_len == start_code_len(b, sc_start as int),
                        frame(b) == nalus@.map_values(|n: Vec<u8>| n@) + scan(
                            b,
                            Some(sc_start as int),
                            sc_start + sc_len,
                        ),
                        last_start(b, None, 0) == last_start(
                            b,
                            Some(sc_start as int),
                            sc_start + sc_len,
                        ),
                    decreases len - sc_start,
                {
                    let nalu_start = sc_start + sc_len;
                    match self.find_start_code_at(nalu_start) {
                        Some((next, next_len)) => {
                            let ghost before = nalus@.map_values(|n: Vec<u8>| n@);
                            proof {
                                lemma_scan_skip(b, Some(sc_start as int), nalu_start as int, next as int);
                            }
                            if next > nalu_start {
                                let mut nalu: Vec<u8> = Vec::new();
                                push_all(&mut nalu, &self.buffer.as_slice()[nalu_start..next]);
                                nalus.push(nalu);
                                assert(nalus@.map_values(|n: Vec<u8>| n@) =~= before.push(
                                    b.subrange(nalu_start as int, next as int),
                                ));
                            }
                            assert(frame(b) == nalus@.map_values(|n: Vec<u8>| n@) + scan(
                                b,
                                Some(next as int),
                                next + next_len,
                            ));
                            sc_start = next;
                            sc_len = next_len;
                        },
                        None => {
                            proof {
                                lemma_scan_none(b, Some(sc_start as int), nalu_start as int);
                            }
                            let mut tail: Vec<u8> = Vec::new();
                            push_all(&mut tail, &self.buffer.as_slice()[sc_start..len]);
                            self.buffer = tail;
                            assert(frame(b) =~= nalus@.map_values(|n: Vec<u8>| n@));
                            assert(last_start(b, None, 0) == Some(sc_start as int));
                            assert(self.buffer@ =~= retained(b));
                            return nalus;
                        },
                    }
                }
            },
        }
    }

    /// At the end of the stream: the unit after the held-back start code,
    /// if it is not empty; nothing is held back afterwards.
    pub fn finish(&mut self) -> (nalus: Vec<Vec<u8>>)
        ensures
            nalus@.map_values(|n: Vec<u8>| n@) == trailing(old(self)@),
            final(self)@ == Seq::<u8>::empty(),
    {
        let len = self.buffer.len();
        let b = &self.buffer;
        let l: usize = if len >= 4 && b[0] == 0 && b[1] == 0 && b[2] == 0 && b[3] == 1 {
            4
        } else if len >= 3 && b[0] == 0 && b[1] == 0 && b[2] == 1 {
            3
        } else {
            0
        };
        let mut nalus: Vec<Vec<u8>> = Vec::new();
        if l > 0 && l < len {
            let mut unit: Vec<u8> = Vec::new();
            push_all(&mut unit, &self.buffer.as_slice()[l..len]);
            assert(unit@ =~= self.buffer@.skip(l as int));
            nalus.push(unit);
        }
        assert(nalus@.map_values(|n: Vec<u8>| n@) =~= trailing(old(self)@));
        self.buffer = Vec::new();
        nalus
    }

    /// The first start code at or after `start`, with its length.
    fn find_start_code_at(&self, start: usize) -> (r: Option<(usize, usize)>)
        ensures
            r matches None ==> no_code_between(self.buffer@, start as int, self.buffer@.len() as int),
            r matches Some((p, l)) ==> {
                &&& start <= p
                &&& start_code_at(self.buffer@, p as int)
                &&& l == start_code_len(self.buffer@, p as int)
                &&& no_code_between(self.buffer@, start as int, p as int)
            },
    {
        let len = self.buffer.len();
        let mut i: usize = start;
        while i < len && len - i >= 3
            invariant
                len == self.buffer@.len(),
                start <= i,
                no_code_between(self.buffer@, start as int, i as int),
            decreases len - i,
        {
            let b = &self.buffer;
            if len - i >= 4 && b[i] == 0 && b[i + 1] == 0 && b[i + 2] == 0 && b[i + 3] == 1 {
                return Some((i, 4));
            }
            if b[i] == 0 && b[i + 1] == 0 && b[i + 2] == 1 {
                return Some((i, 3));
            }
            i = i + 1;
        }
        None
    }
}

} // verus!
