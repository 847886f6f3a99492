//! The byte-stuffing transform that makes frames self-delimiting on a
//! stream transport: consistent overhead byte stuffing, which removes
//! every zero byte from a message so that a single trailing zero can
//! mark the end of the frame.
//!
//! The stuffed form is a run of groups. Each group is a code byte
//! followed by up to 254 zero-free data bytes: a code `c < 255` says
//! that `c - 1` data bytes follow and that the message continues with a
//! zero (unless the group is the last one); the code `255` says that a
//! full 254 data bytes follow with no implied zero.

use vstd::prelude::*;

verus! {

/// Index of the first zero byte of `data`, or `data.len()` when none
/// occurs.
pub open spec fn first_zero(data: Seq<u8>) -> nat
    decreases data.len(),
{
    if data.len() == 0 {
        0
    } else if data[0] == 0 {
        0
    } else {
        1 + first_zero(data.drop_first())
    }
}

/// Length of the leading group's data: the zero-free prefix of `data`,
/// capped at 254 bytes.
pub open spec fn group_len(data: Seq<u8>) -> int {
    vstd::math::min(
        first_zero(data) as int,
        vstd::math::min(254, data.len() as int),
    )
}

/// The stuffed form of `data`: group by group, a code byte and the
/// group's data bytes. The trailing frame terminator is not included.
pub open spec fn stuff(data: Seq<u8>) -> Seq<u8>
    decreases data.len(),
{
    let k = group_len(data);
    if k == 254 {
        seq![255u8] + data.subrange(0, 254) + stuff(data.skip(254))
    } else if k == data.len() {
        seq![(k + 1) as u8] + data
    } else {
        seq![(k + 1) as u8] + data.subrange(0, k) + stuff(data.skip(k + 1))
    }
}

/// What `first_zero` returns: an index no larger than the length, with
/// no zero before it, and a zero at it when it is not the length.
pub proof fn lemma_first_zero(data: Seq<u8>)
    ensures
        first_zero(data) <= data.len(),
        forall|i: int| 0 <= i < first_zero(data) ==> data[i] != 0,
        first_zero(data) < data.len() ==> data[first_zero(data) as int] == 0,
    decreases data.len(),
{
    if data.len() == 0 {
    } else if data[0] == 0 {
    } else {
        lemma_first_zero(data.drop_first());
        assert forall|i: int| 0 <= i < first_zero(data) implies data[i] != 0 by {
            if i >= 1 {
                assert(data.drop_first()[i - 1] == data[i]);
            }
        }
        if first_zero(data) < data.len() {
            assert(data.drop_first()[first_zero(data) as int - 1]
                == data[first_zero(data) as int]);
        }
    }
}

/// A zero-free prefix pushes the first zero at least that far out.
pub proof fn lemma_first_zero_at_least(data: Seq<u8>, k: int)
    requires
        0 <= k <= data.len(),
        forall|i: int| 0 <= i < k ==> data[i] != 0,
    ensures
        first_zero(data) >= k,
    decreases k,
{
    if k > 0 {
        assert(data[0] != 0);
        assert forall|i: int| 0 <= i < k - 1 implies data.drop_first()[i] != 0 by {
            assert(data.drop_first()[i] == data[i + 1]);
        }
        lemma_first_zero_at_least(data.drop_first(), k - 1);
    }
}

/// A zero-free prefix bounded by a zero (or by the end of the data)
/// pins `first_zero` down exactly.
pub proof fn lemma_first_zero_is(data: Seq<u8>, k: int)
    requires
        0 <= k <= data.len(),
        forall|i: int| 0 <= i < k ==> data[i] != 0,
        k < data.len() ==> data[k] == 0,
    ensures
        first_zero(data) == if k < data.len() { k } else { data.len() as int },
{
    lemma_first_zero(data);
    lemma_first_zero_at_least(data, k);
    if k < data.len() && first_zero(data) > k {
        assert(data[k] != 0);
    }
}

/// The stuffed form is never empty and contains no zero byte: the frame
/// terminator appended after it is the only zero of a whole frame.
pub proof fn lemma_stuff_no_zero(data: Seq<u8>)
    ensures
        stuff(data).len() >= 1,
        forall|i: int| 0 <= i < stuff(data).len() ==> stuff(data)[i] != 0,
    decreases data.len(),
{
    lemma_first_zero(data);
    let k = group_len(data);
    if k == 254 {
        lemma_stuff_no_zero(data.skip(254));
        assert forall|i: int| 0 <= i < stuff(data).len() implies stuff(data)[i] != 0 by {
            if 1 <= i < 255 {
                assert(stuff(data)[i] == data[i - 1]);
            } else if i >= 255 {
                assert(stuff(data)[i] == stuff(data.skip(254))[i - 255]);
            }
        }
    } else if k == data.len() {
        assert forall|i: int| 0 <= i < stuff(data).len() implies stuff(data)[i] != 0 by {
            if i >= 1 {
                assert(stuff(data)[i] == data[i - 1]);
            }
        }
    } else {
        lemma_stuff_no_zero(data.skip(k + 1));
        assert forall|i: int| 0 <= i < stuff(data).len() implies stuff(data)[i] != 0 by {
            if 1 <= i < k + 1 {
                assert(stuff(data)[i] == data[i - 1]);
            } else if i >= k + 1 {
                assert(stuff(data)[i] == stuff(data.skip(k + 1))[i - (k + 1)]);
            }
        }
    }
}

/// The inverse transform: reads a frame group by group — a code byte,
/// its zero-free data bytes, and the implied zero when a short group is
/// not the last — and fails on any malformed frame: a missing
/// terminator, a zero where data is owed, or a truncated group.
pub open spec fn unstuff(frame: Seq<u8>) -> Option<Seq<u8>>
    decreases frame.len(),
{
    if frame.len() == 0 {
        None
    } else {
        let code = frame[0] as int;
        if code == 0 || frame.len() < code + 1 {
            None
        } else {
            let group = frame.subrange(1, code);
            if exists|i: int| 0 <= i < group.len() && group[i] == 0 {
                None
            } else if frame.skip(code) == seq![0u8] {
                Some(group)
            } else {
                match unstuff(frame.skip(code)) {
                    Some(rest) => if code < 255 {
                        Some(group + seq![0u8] + rest)
                    } else {
                        Some(group + rest)
                    },
                    None => None,
                }
            }
        }
    }
}

/// Unstuffing is the exact inverse of stuffing: every message comes
/// back unchanged from its stuffed and terminated frame.
pub proof fn lemma_stuff_round_trip(data: Seq<u8>)
    ensures
        unstuff(stuff(data) + seq![0u8]) == Some(data),
    decreases data.len(),
{
    lemma_first_zero(data);
    let k = group_len(data);
    let frame = stuff(data) + seq![0u8];
    if k == 254 {
        lemma_stuff_no_zero(data.skip(254));
        lemma_stuff_round_trip(data.skip(254));
        assert(frame[0] == 255);
        let group = frame.subrange(1, 255);
        assert(group =~= data.subrange(0, 254));
        assert(forall|i: int| 0 <= i < group.len() ==> group[i] != 0);
        assert(frame.skip(255) =~= stuff(data.skip(254)) + seq![0u8]);
        assert(frame.skip(255).len() >= 2);
        assert(group + data.skip(254) =~= data);
    } else if k == data.len() {
        assert(frame[0] == k + 1);
        let group = frame.subrange(1, k + 1);
        assert(group =~= data);
        assert(forall|i: int| 0 <= i < group.len() ==> group[i] != 0);
        assert(frame.skip(k + 1) =~= seq![0u8]);
    } else {
        lemma_stuff_no_zero(data.skip(k + 1));
        lemma_stuff_round_trip(data.skip(k + 1));
        assert(frame[0] == k + 1);
        let group = frame.subrange(1, k + 1);
        assert(group =~= data.subrange(0, k));
        assert(forall|i: int| 0 <= i < group.len() ==> group[i] != 0);
        assert(frame.skip(k + 1) =~= stuff(data.skip(k + 1)) + seq![0u8]);
        assert(frame.skip(k + 1).len() >= 2);
        assert(data[k] == 0);
        assert(group + seq![0u8] + data.skip(k + 1) =~= data);
    }
}

/// Only one frame unstuffs to the empty message: a lone empty group
/// before the terminator.
proof fn lemma_unstuff_empty_frame(frame: Seq<u8>)
    requires
        unstuff(frame) == Some(Seq::<u8>::empty()),
    ensures
        frame =~= seq![1u8, 0u8],
{
    let code = frame[0] as int;
    let group = frame.subrange(1, code);
    if frame.skip(code) == seq![0u8] {
        assert(group.len() == 0);
        assert(code == 1);
        assert(frame.skip(1).len() == 1);
        assert(frame[1] == frame.skip(1)[0]);
    } else {
        match unstuff(frame.skip(code)) {
            Some(rest) => {
                if code < 255 {
                    assert((group + seq![0u8] + rest).len() >= 1);
                } else {
                    assert((group + rest).len() >= 254);
                }
                assert(false);
            }
            None => {
                assert(false);
            }
        }
    }
}

/// Only one frame unstuffs to a given one-byte message: for a zero the
/// two empty groups it is stuffed into, for anything else the single
/// two-byte group. This pins the reply framings down as the unique
/// well-formed reply frames.
pub proof fn lemma_unstuff_singleton(frame: Seq<u8>, x: u8)
    requires
        unstuff(frame) == Some(seq![x]),
    ensures
        frame == if x == 0 {
            seq![1u8, 1u8, 0u8]
        } else {
            seq![2u8, x, 0u8]
        },
{
    let code = frame[0] as int;
    let group = frame.subrange(1, code);
    if frame.skip(code) == seq![0u8] {
        assert(group =~= seq![x]);
        assert(code == 2);
        assert(x != 0) by {
            if x == 0 {
                assert(group[0] == 0);
                assert(exists|m: int| 0 <= m < group.len() && group[m] == 0);
            }
        }
        assert(frame.skip(2).len() == 1);
        assert(frame[1] == group[0]);
        assert(frame[2] == frame.skip(2)[0]);
        assert(frame =~= seq![2u8, x, 0u8]);
    } else {
        match unstuff(frame.skip(code)) {
            Some(rest) => {
                if code < 255 {
                    let whole = group + seq![0u8] + rest;
                    assert(whole == seq![x]);
                    assert(whole.len() == group.len() + 1 + rest.len());
                    assert(group.len() == 0 && rest.len() == 0);
                    assert(whole[0] == 0);
                    assert(x == 0);
                    assert(code == 1);
                    assert(rest =~= Seq::<u8>::empty());
                    lemma_unstuff_empty_frame(frame.skip(1));
                    assert(frame.skip(1).len() == 2);
                    assert(frame[1] == frame.skip(1)[0]);
                    assert(frame[2] == frame.skip(1)[1]);
                    assert(frame =~= seq![1u8, 1u8, 0u8]);
                } else {
                    assert((group + rest).len() >= 254);
                    assert(false);
                }
            }
            None => {
                assert(false);
            }
        }
    }
}

/// The whole message a frame unstuffs to, given what its remainder
/// unstuffs to: a malformed remainder spoils the whole frame.
pub open spec fn opt_prepend(prefix: Seq<u8>, rest: Option<Seq<u8>>) -> Option<Seq<u8>> {
    match rest {
        Some(r) => Some(prefix + r),
        None => None,
    }
}

/// Applies the inverse transform to a received frame, group by group,
/// exactly as `unstuff` describes it: the message when the frame is
/// well formed, nothing otherwise.
pub fn cobs_unstuff(frame: &Vec<u8>) -> (r: Option<Vec<u8>>)
    ensures
        match r {
            Some(d) => unstuff(frame@) == Some(d@),
            None => unstuff(frame@) is None,
        },
{
    let mut out: Vec<u8> = Vec::new();
    let mut i: usize = 0;
    proof {
        assert(frame@.skip(0) =~= frame@);
        match unstuff(frame@) {
            Some(d) => {
                assert(Seq::<u8>::empty() + d =~= d);
            }
            None => {}
        }
    }
    loop
        invariant
            i < frame@.len() || i == 0,
            unstuff(frame@) == opt_prepend(out@, unstuff(frame@.skip(i as int))),
        decreases frame@.len() - i,
    {
        let ghost s = frame@.skip(i as int);
        let ghost out_snap = out@;
        if i >= frame.len() {
            return None;
        }
        proof {
            assert(s[0] == frame@[i as int]);
            assert(s.len() == frame@.len() - i);
        }
        let code = frame[i] as usize;
        if code == 0 {
            return None;
        }
        if frame.len() - i < code + 1 {
            return None;
        }
        // the group's data bytes, which may contain no zero
        proof {
            assert(out@ =~= out_snap + frame@.subrange(i + 1, i + 1));
        }
        let mut l: usize = i + 1;
        while l < i + code
            invariant
                i + 1 <= l <= i + code,
                s == frame@.skip(i as int),
                code == frame@[i as int],
                1 <= code <= 255,
                i + code < frame@.len(),
                frame@.len() <= usize::MAX,
                unstuff(frame@) == opt_prepend(out_snap, unstuff(s)),
                out@ == out_snap + frame@.subrange(i + 1, l as int),
                forall|m: int| i + 1 <= m < l ==> frame@[m] != 0,
            decreases i + code - l,
        {
            let b = frame[l];
            if b == 0 {
                proof {
                    let group = s.subrange(1, code as int);
                    assert(s[0] == frame@[i as int]);
                    assert(s.len() == frame@.len() - i);
                    assert(s[l - i] == frame@[l as int]);
                    assert(group[l - i - 1] == s[l - i]);
                    assert(group[l - i - 1] == 0);
                    assert(exists|m: int| 0 <= m < group.len() && group[m] == 0);
                }
                return None;
            }
            out.push(b);
            proof {
                assert(out@ =~= out_snap + frame@.subrange(i + 1, l + 1));
            }
            l += 1;
        }
        proof {
            let group = s.subrange(1, code as int);
            assert(group =~= frame@.subrange(i + 1, i + code));
            assert(forall|m: int| 0 <= m < group.len() ==> group[m] != 0);
        }
        if i + code == frame.len() - 1 && frame[i + code] == 0 {
            proof {
                assert(s.skip(code as int) =~= seq![0u8]);
                let group = s.subrange(1, code as int);
                assert(unstuff(s) == Some(group));
                assert(out@ =~= out_snap + group);
            }
            return Some(out);
        }
        proof {
            let tail = s.skip(code as int);
            if tail == seq![0u8] {
                assert(frame@[i + code] == tail[0]);
                assert(frame@.len() - i - code == 1);
                assert(false);
            }
        }
        if code < 255 {
            out.push(0);
        }
        proof {
            let group = s.subrange(1, code as int);
            assert(s.skip(code as int) =~= frame@.skip(i + code));
            match unstuff(frame@.skip(i + code)) {
                Some(rest) => {
                    if code < 255 {
                        assert(out@ =~= out_snap + group + seq![0u8]);
                        assert(out@ + rest =~= out_snap + (group + seq![0u8] + rest));
                    } else {
                        assert(out@ =~= out_snap + group);
                        assert(out@ + rest =~= out_snap + (group + rest));
                    }
                }
                None => {}
            }
        }
        i = i + code;
    }
}

/// Applies the stuffing transform to a message. The caller appends the
/// frame terminator.
pub fn cobs_stuff(data: &Vec<u8>) -> (out: Vec<u8>)
    ensures
        out@ == stuff(data@),
{
    let mut out: Vec<u8> = Vec::new();
    let mut i: usize = 0;
    let mut done: bool = false;
    proof {
        assert(data@.skip(0) =~= data@);
        assert(Seq::<u8>::empty() + stuff(data@) =~= stuff(data@));
    }
    while !done
        invariant
            i <= data@.len(),
            !done ==> stuff(data@) == out@ + stuff(data@.skip(i as int)),
            done ==> out@ == stuff(data@),
        decreases (if done { 0int } else { 1int }) + (data@.len() - i),
    {
        let ghost rem = data@.skip(i as int);
        let ghost out_snap = out@;

        // scan the zero-free group that starts at i, capped at 254 bytes
        let mut j: usize = i;
        while j < data.len() && j - i < 254 && data[j] != 0
            invariant
                i <= j <= data@.len(),
                j - i <= 254,
                forall|l: int| i <= l < j ==> data@[l] != 0,
            decreases data@.len() - j,
        {
            j += 1;
        }
        let k = j - i;

        proof {
            assert(rem.len() == data@.len() - i);
            assert forall|l: int| 0 <= l < k implies rem[l] != 0 by {
                assert(rem[l] == data@[i + l]);
            }
            if k < 254 && j < data@.len() {
                assert(rem[k as int] == data@[j as int]);
                lemma_first_zero_is(rem, k as int);
            } else if j == data@.len() {
                lemma_first_zero_is(rem, k as int);
            } else {
                lemma_first_zero_at_least(rem, 254);
            }
            assert(group_len(rem) == k);
        }

        out.push((k + 1) as u8);
        let mut l: usize = i;
        while l < j
            invariant
                i <= l <= j <= data@.len(),
                out@ == out_snap + seq![(k + 1) as u8] + data@.subrange(i as int, l as int),
            decreases j - l,
        {
            out.push(data[l]);
            proof {
                assert(out@ =~= out_snap + seq![(k + 1) as u8]
                    + data@.subrange(i as int, l + 1 as int));
            }
            l += 1;
        }

        if k == 254 {
            proof {
                assert(rem.subrange(0, 254) =~= data@.subrange(i as int, j as int));
                assert(rem.skip(254) =~= data@.skip(j as int));
                assert(stuff(rem) == seq![255u8] + data@.subrange(i as int, j as int)
                    + stuff(data@.skip(j as int)));
                assert(out@ + stuff(data@.skip(j as int))
                    =~= out_snap + stuff(rem));
            }
            i = j;
        } else if j == data.len() {
            proof {
                assert(stuff(rem) == seq![(k + 1) as u8] + rem);
                assert(rem =~= data@.subrange(i as int, j as int));
                assert(out@ =~= out_snap + stuff(rem));
            }
            i = j;
            done = true;
        } else {
            proof {
                assert(rem.subrange(0, k as int) =~= data@.subrange(i as int, j as int));
                assert(rem.skip(k + 1) =~= data@.skip(j + 1));
                assert(stuff(rem) == seq![(k + 1) as u8] + data@.subrange(i as int, j as int)
                    + stuff(data@.skip(j + 1)));
                assert(out@ + stuff(data@.skip(j + 1)) =~= out_snap + stuff(rem));
            }
            i = j + 1;
        }
    }
    out
}

} // verus!
