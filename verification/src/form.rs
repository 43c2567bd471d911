//! The raw selection form body.
//!
//! A write- or read-phase submission arrives as a URL-encoded form body
//! whose keys are bit positions: `0=on&4=on` selects options 0 and 4.
//! Items are separated by `&`; an item's key is everything before its first
//! `=` (or the whole item); values are ignored. Empty items are skipped.
//! A body is valid when every non-empty item's key is a string of ASCII
//! digits naming a position below 63, and there are at most 63 non-empty
//! items; anything else is an invalid request.

use vstd::prelude::*;

use crate::errors::DiwkError;

verus! {

/// The item separator `&`.
pub const ITEM_SEP: u8 = 38;

/// The key–value separator `=`.
pub const KEY_SEP: u8 = 61;

/// Whether `b` is an ASCII digit.
pub open spec fn is_digit(b: u8) -> bool {
    48 <= b <= 57
}

/// Whether `s` is a non-empty string of ASCII digits.
pub open spec fn all_digits(s: Seq<u8>) -> bool {
    s.len() > 0 && forall|i: int| 0 <= i < s.len() ==> is_digit(#[trigger] s[i])
}

/// The number a digit string spells, most significant digit first.
pub open spec fn digits_val(s: Seq<u8>) -> int
    decreases s.len(),
{
    if s.len() == 0 {
        0
    } else {
        digits_val(s.drop_last()) * 10 + (s.last() - 48)
    }
}

/// A digit string never spells a negative number.
pub proof fn lemma_digits_val_nonneg(s: Seq<u8>)
    requires
        forall|i: int| 0 <= i < s.len() ==> is_digit(#[trigger] s[i]),
    ensures
        digits_val(s) >= 0,
    decreases s.len(),
{
    if s.len() > 0 {
        let t = s.drop_last();
        assert(forall|i: int| 0 <= i < t.len() ==> #[trigger] t[i] == s[i]);
        lemma_digits_val_nonneg(t);
    }
}

/// An item's key: its bytes before the first `=`.
pub open spec fn key_of(seg: Seq<u8>) -> Seq<u8>
    decreases seg.len(),
{
    if seg.len() == 0 {
        seg
    } else if seg.first() == KEY_SEP {
        Seq::empty()
    } else {
        seq![seg.first()] + key_of(seg.drop_first())
    }
}

/// The body's items: the runs between `&` separators, in order, empty runs
/// included. A body always has at least one item; an empty body has one
/// empty item.
pub open spec fn segments(body: Seq<u8>) -> Seq<Seq<u8>>
    decreases body.len(),
{
    if body.len() == 0 {
        seq![Seq::<u8>::empty()]
    } else if body.first() == ITEM_SEP {
        seq![Seq::<u8>::empty()] + segments(body.drop_first())
    } else {
        let rest = segments(body.drop_first());
        seq![seq![body.first()] + rest.first()] + rest.drop_first()
    }
}

/// Every body splits into at least one item.
pub proof fn lemma_segments_nonempty(body: Seq<u8>)
    ensures
        segments(body).len() >= 1,
    decreases body.len(),
{
    if body.len() > 0 {
        lemma_segments_nonempty(body.drop_first());
    }
}

/// Whether an item is acceptable: empty, or keyed by a digit string naming
/// a position below 63.
pub open spec fn valid_item(seg: Seq<u8>) -> bool {
    seg.len() == 0 || (all_digits(key_of(seg)) && digits_val(key_of(seg)) < 63)
}

/// How many items are non-empty.
pub open spec fn nonempty_count(segs: Seq<Seq<u8>>) -> int
    decreases segs.len(),
{
    if segs.len() == 0 {
        0
    } else {
        nonempty_count(segs.drop_last()) + if segs.last().len() > 0 {
            1int
        } else {
            0int
        }
    }
}

/// Whether a body parses: every item acceptable, at most 63 of them
/// non-empty.
pub open spec fn valid_form(body: Seq<u8>) -> bool {
    &&& forall|i: int| 0 <= i < segments(body).len() ==> valid_item(#[trigger] segments(body)[i])
    &&& nonempty_count(segments(body)) <= 63
}

/// Whether the body names position `p`: some non-empty item's key spells it.
pub open spec fn form_selects(body: Seq<u8>, p: int) -> bool {
    exists|i: int|
        0 <= i < segments(body).len() && (#[trigger] segments(body)[i]).len() > 0 && digits_val(
            key_of(segments(body)[i]),
        ) == p
}

/// A prefix never counts more non-empty items than the whole.
proof fn lemma_nonempty_count_prefix(segs: Seq<Seq<u8>>, i: int)
    requires
        0 <= i <= segs.len(),
    ensures
        nonempty_count(segs.take(i)) <= nonempty_count(segs),
    decreases segs.len(),
{
    if i < segs.len() {
        assert(segs.drop_last().take(i) =~= segs.take(i));
        lemma_nonempty_count_prefix(segs.drop_last(), i);
    } else {
        assert(segs.take(i) =~= segs);
    }
}

/// Split the body into its items.
fn split_items(body: &Vec<u8>) -> (r: Vec<Vec<u8>>)
    ensures
        r.deep_view() == segments(body@),
{
    let mut segs: Vec<Vec<u8>> = Vec::new();
    let mut cur: Vec<u8> = Vec::new();
    let mut i: usize = 0;
    let n = body.len();
    proof {
        lemma_segments_nonempty(body@);
        assert(body@.skip(0) =~= body@);
        assert(segs.deep_view() =~~= Seq::<Seq<u8>>::empty());
        assert(Seq::<u8>::empty() + segments(body@).first() =~= segments(body@).first());
        assert(segments(body@) =~= seq![segments(body@).first()] + segments(body@).drop_first());
        assert(segs.deep_view() + seq![cur@ + segments(body@.skip(0)).first()] + segments(
            body@.skip(0),
        ).drop_first() =~~= segments(body@));
    }
    while i < n
        invariant
            n == body@.len(),
            i <= n,
            segments(body@.skip(i as int)).len() >= 1,
            segs.deep_view() + seq![cur@ + segments(body@.skip(i as int)).first()] + segments(
                body@.skip(i as int),
            ).drop_first() == segments(body@),
        decreases n - i,
    {
        let ghost before = segments(body@.skip(i as int));
        let ghost after = segments(body@.skip(i as int + 1));
        proof {
            lemma_segments_nonempty(body@.skip(i as int + 1));
            assert(body@.skip(i as int).drop_first() =~= body@.skip(i as int + 1));
            assert(body@.skip(i as int).first() == body@[i as int]);
        }
        let ghost done = segs.deep_view();
        let ghost cur_now = cur@;
        let b = body[i];
        if b == ITEM_SEP {
            proof {
                assert(before == seq![Seq::<u8>::empty()] + after);
                assert(before.first() =~= Seq::<u8>::empty());
                assert(before.drop_first() =~= after);
                assert(cur_now + before.first() =~= cur_now);
                assert(after =~= seq![after.first()] + after.drop_first());
            }
            segs.push(cur);
            cur = Vec::new();
            proof {
                assert(segs.deep_view() =~~= done.push(cur_now));
                assert(segs.deep_view() + seq![cur@ + after.first()] + after.drop_first() =~~= done
                    + seq![cur_now + before.first()] + before.drop_first());
            }
        } else {
            proof {
                assert(before == seq![seq![body@[i as int]] + after.first()] + after.drop_first());
                assert(before.first() =~= seq![b] + after.first());
                assert(before.drop_first() =~= after.drop_first());
                assert(cur_now.push(b) + after.first() =~= cur_now + before.first());
            }
            cur.push(b);
            proof {
                assert(segs.deep_view() + seq![cur@ + after.first()] + after.drop_first() =~~= done
                    + seq![cur_now + before.first()] + before.drop_first());
            }
        }
        i = i + 1;
    }
    let ghost done = segs.deep_view();
    let ghost cur_now = cur@;
    proof {
        assert(body@.skip(n as int) =~= Seq::<u8>::empty());
        assert(segments(body@.skip(n as int)) == seq![Seq::<u8>::empty()]);
        assert(cur_now + segments(body@.skip(n as int)).first() =~= cur_now);
        assert(segments(body@.skip(n as int)).drop_first() =~= Seq::<Seq<u8>>::empty());
    }
    segs.push(cur);
    proof {
        assert(segs.deep_view() =~~= done.push(cur_now));
        assert(segs.deep_view() =~~= done + seq![cur_now + segments(body@.skip(n as int)).first()]
            + segments(body@.skip(n as int)).drop_first());
    }
    segs
}

/// Parse one item: nothing for an empty item, its position for an
/// acceptable one, and an invalid request otherwise.
fn parse_item(seg: &Vec<u8>) -> (r: Result<Option<u64>, DiwkError>)
    ensures
        seg@.len() == 0 ==> r == Ok::<Option<u64>, DiwkError>(None),
        seg@.len() > 0 ==> r == (if all_digits(key_of(seg@)) && digits_val(key_of(seg@)) < 63 {
            Ok::<Option<u64>, DiwkError>(Some(digits_val(key_of(seg@)) as u64))
        } else {
            Err::<Option<u64>, DiwkError>(DiwkError::InvalidRequest)
        }),
        r matches Ok(Some(p)) ==> p < 63,
{
    let n = seg.len();
    if n == 0 {
        return Ok(None);
    }
    let mut i: usize = 0;
    let mut val: u64 = 0;
    let mut big = false;
    while i < n && seg[i] != KEY_SEP
        invariant
            n == seg@.len(),
            i <= n,
            forall|j: int| 0 <= j < i ==> seg@[j] != KEY_SEP && is_digit(#[trigger] seg@[j]),
            !big ==> val == digits_val(seg@.take(i as int)) && val < 63,
            big ==> digits_val(seg@.take(i as int)) >= 63,
        decreases n - i,
    {
        let b = seg[i];
        if b < 48 || b > 57 {
            proof {
                lemma_key_of_byte(seg@, i as int);
                assert(key_of(seg@)[i as int] == seg@[i as int]);
                assert(!is_digit(key_of(seg@)[i as int]));
                assert(!all_digits(key_of(seg@)));
            }
            return Err(DiwkError::InvalidRequest);
        }
        proof {
            assert(seg@.take(i as int + 1).drop_last() =~= seg@.take(i as int));
            assert(seg@.take(i as int + 1).last() == seg@[i as int]);
        }
        if big {
        } else if val >= 7 {
            big = true;
        } else {
            val = val * 10 + ((b - 48) as u64);
            if val >= 63 {
                big = true;
            }
        }
        i = i + 1;
    }
    proof {
        lemma_key_of_prefix(seg@, i as int);
    }
    if i == 0 {
        proof {
            assert(!all_digits(key_of(seg@)));
        }
        return Err(DiwkError::InvalidRequest);
    }
    if big {
        return Err(DiwkError::InvalidRequest);
    }
    Ok(Some(val))
}

/// While no `=` has occurred, the key extends past each byte unchanged.
proof fn lemma_key_of_byte(seg: Seq<u8>, e: int)
    requires
        0 <= e < seg.len(),
        forall|j: int| 0 <= j <= e ==> seg[j] != KEY_SEP,
    ensures
        key_of(seg).len() > e,
        key_of(seg)[e] == seg[e],
    decreases seg.len(),
{
    if e > 0 {
        let t = seg.drop_first();
        assert(forall|j: int| 0 <= j < t.len() ==> #[trigger] t[j] == seg[j + 1]);
        assert forall|j: int| 0 <= j <= e - 1 implies (#[trigger] t[j]) != KEY_SEP by {
            assert(t[j] == seg[j + 1]);
        }
        lemma_key_of_byte(t, e - 1);
        assert(key_of(seg) == seq![seg.first()] + key_of(t));
        assert(key_of(seg)[e] == key_of(t)[e - 1]);
        assert(t[e - 1] == seg[e]);
    }
}

/// The key of an item whose first `e` bytes are not `=` (and whose byte `e`,
/// if any, is `=`) is exactly those first `e` bytes.
proof fn lemma_key_of_prefix(seg: Seq<u8>, e: int)
    requires
        0 <= e <= seg.len(),
        forall|j: int| 0 <= j < e ==> seg[j] != KEY_SEP,
        e < seg.len() ==> seg[e] == KEY_SEP,
    ensures
        key_of(seg) == seg.take(e),
    decreases seg.len(),
{
    if seg.len() == 0 {
        assert(seg.take(e) =~= seg);
    } else if e == 0 {
        assert(seg.first() == KEY_SEP);
        assert(key_of(seg) =~= seg.take(0));
    } else {
        let t = seg.drop_first();
        assert(forall|j: int| 0 <= j < e - 1 ==> #[trigger] t[j] == seg[j + 1]);
        lemma_key_of_prefix(t, e - 1);
        assert(seq![seg.first()] + t.take(e - 1) =~= seg.take(e));
    }
}

/// Parse a selection form body into a boolean per position.
///
/// Succeeds exactly on valid bodies, and then returns 63 booleans, true at
/// exactly the positions the body names; every other body is an invalid
/// request.
pub fn parse_selection(body: &Vec<u8>) -> (r: Result<Vec<bool>, DiwkError>)
    ensures
        r is Ok <==> valid_form(body@),
        r is Err ==> r == Err::<Vec<bool>, DiwkError>(DiwkError::InvalidRequest),
        r matches Ok(sel) ==> sel@.len() == 63 && forall|p: int|
            0 <= p < 63 ==> (sel@[p] <==> form_selects(body@, p)),
{
    let items = split_items(body);
    let ghost segs = segments(body@);
    let mut sel: Vec<bool> = Vec::new();
    let mut k: usize = 0;
    while k < 63
        invariant
            k <= 63,
            sel@.len() == k,
            forall|p: int| 0 <= p < k ==> !sel@[p],
        decreases 63 - k,
    {
        sel.push(false);
        k = k + 1;
    }
    let mut count: usize = 0;
    let mut i: usize = 0;
    let n = items.len();
    while i < n
        invariant
            segs == segments(body@),
            items.deep_view() == segs,
            n == segs.len(),
            i <= n,
            sel@.len() == 63,
            count == nonempty_count(segs.take(i as int)),
            count <= 63,
            forall|j: int| 0 <= j < i ==> valid_item(#[trigger] segs[j]),
            forall|p: int|
                0 <= p < 63 ==> (sel@[p] <==> exists|j: int|
                    0 <= j < i && (#[trigger] segs[j]).len() > 0 && digits_val(key_of(segs[j]))
                        == p),
        decreases n - i,
    {
        proof {
            assert(segs.take(i as int + 1).drop_last() =~= segs.take(i as int));
            assert(segs.take(i as int + 1).last() == segs[i as int]);
            assert(items.deep_view()[i as int] == items@[i as int]@);
        }
        let item = &items[i];
        match parse_item(item) {
            Err(e) => {
                proof {
                    assert(!valid_item(segs[i as int]));
                    assert(segments(body@)[i as int] == segs[i as int]);
                    assert(!valid_form(body@));
                }
                return Err(e);
            },
            Ok(None) => {
                proof {
                    assert(segs[i as int].len() == 0);
                    assert forall|p: int| 0 <= p < 63 implies (sel@[p] <==> exists|j: int|
                        0 <= j < i + 1 && (#[trigger] segs[j]).len() > 0 && digits_val(
                            key_of(segs[j]),
                        ) == p) by {
                        if sel@[p] {
                            let j = choose|j: int|
                                0 <= j < i && (#[trigger] segs[j]).len() > 0 && digits_val(
                                    key_of(segs[j]),
                                ) == p;
                            assert(0 <= j < i + 1 && segs[j].len() > 0 && digits_val(
                                key_of(segs[j]),
                            ) == p);
                        }
                    }
                }
            },
            Ok(Some(pos)) => {
                proof {
                    assert(segs[i as int].len() > 0);
                    assert(all_digits(key_of(segs[i as int])));
                    assert(digits_val(key_of(segs[i as int])) < 63);
                    lemma_digits_val_nonneg(key_of(segs[i as int]));
                    assert(pos == digits_val(key_of(segs[i as int])) as u64);
                    assert(digits_val(key_of(segs[i as int])) == pos as int);
                }
                if count >= 63 {
                    proof {
                        assert(nonempty_count(segs.take(i as int + 1)) == 64);
                        lemma_nonempty_count_prefix(segs, i as int + 1);
                        assert(nonempty_count(segs) >= 64);
                        assert(!valid_form(body@));
                    }
                    return Err(DiwkError::InvalidRequest);
                }
                let ghost sel_before = sel@;
                let pos_ix = pos as usize;
                sel[pos_ix] = true;
                count = count + 1;
                proof {
                    assert(sel@ =~= sel_before.update(pos_ix as int, true));
                    assert forall|p: int| 0 <= p < 63 implies (sel@[p] <==> exists|j: int|
                        0 <= j < i + 1 && (#[trigger] segs[j]).len() > 0 && digits_val(
                            key_of(segs[j]),
                        ) == p) by {
                        if p == pos_ix as int {
                            assert(segs[i as int].len() > 0 && digits_val(key_of(segs[i as int]))
                                == p);
                        } else {
                            assert(sel@[p] == sel_before[p]);
                            if sel_before[p] {
                                let j = choose|j: int|
                                    0 <= j < i && (#[trigger] segs[j]).len() > 0 && digits_val(
                                        key_of(segs[j]),
                                    ) == p;
                                assert(0 <= j < i + 1 && segs[j].len() > 0 && digits_val(
                                    key_of(segs[j]),
                                ) == p);
                            } else {
                                if exists|j: int|
                                    0 <= j < i + 1 && (#[trigger] segs[j]).len() > 0 && digits_val(
                                        key_of(segs[j]),
                                    ) == p {
                                    let j = choose|j: int|
                                        0 <= j < i + 1 && (#[trigger] segs[j]).len() > 0
                                            && digits_val(key_of(segs[j])) == p;
                                    assert(j == i);
                                    assert(false);
                                }
                            }
                        }
                    }
                }
            },
        }
        i = i + 1;
    }
    proof {
        assert(segs.take(n as int) =~= segs);
    }
    Ok(sel)
}

} // verus!
