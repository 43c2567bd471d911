//! The bit-selection codec.
//!
//! A party's choice of options is an ordered list of booleans, one per chart
//! option. Encoding packs those booleans into the low-order bits of a 64-bit
//! integer (entry `i` becomes bit `i`) and sets the high "marker" bit, which
//! tells a stored real answer apart from the unanswered sentinel. Decoding
//! walks a chart's option labels in order and keeps the labels whose bit is
//! set; the marker bit is never read back, since a chart carries at most 63
//! options.

use vstd::prelude::*;

use crate::errors::DiwkError;

verus! {

/// The marker bit: set on every stored answer, never used as a selection bit.
pub const MARKER_BIT: u64 = 0x8000_0000_0000_0000;

/// All bits but the marker: the positions a selection may occupy.
pub const SELECTION_BITS: u64 = 0x7fff_ffff_ffff_ffff;

/// The most options a chart may carry: one bit of the stored integer is
/// reserved as the marker.
pub const MAX_OPTIONS: usize = 63;

/// Whether bit `i` of `m` is set.
pub open spec fn bit_set(m: u64, i: u64) -> bool {
    (m >> i) & 1 == 1
}

/// How many entries of `s` are true.
pub open spec fn count_true(s: Seq<bool>) -> int
    decreases s.len(),
{
    if s.len() == 0 {
        0
    } else {
        count_true(s.drop_last()) + if s.last() {
            1int
        } else {
            0int
        }
    }
}

/// The packed form of a selection: bit `i` is set exactly when entry `i` is
/// true. The marker bit is not part of this value.
pub open spec fn mask_of(s: Seq<bool>) -> u64
    decreases s.len(),
{
    if s.len() == 0 {
        0u64
    } else if s.last() {
        mask_of(s.drop_last()) | (1u64 << ((s.len() - 1) as u64))
    } else {
        mask_of(s.drop_last())
    }
}

/// What a successful encoding yields: the packed selection with the marker
/// bit set.
pub open spec fn encoded_mask(s: Seq<bool>) -> u64 {
    mask_of(s) | MARKER_BIT
}

/// The AND-combination of two stored answers, with the marker bit cleared
/// before interpretation.
pub open spec fn combined_mask(a: u64, b: u64) -> u64 {
    (a & b) & SELECTION_BITS
}

/// The labels of `opts` whose bit in `m` is set, in option order.
pub open spec fn selected_labels(opts: Seq<Seq<char>>, m: u64) -> Seq<Seq<char>>
    decreases opts.len(),
{
    if opts.len() == 0 {
        Seq::empty()
    } else {
        let rest = selected_labels(opts.drop_last(), m);
        if bit_set(m, (opts.len() - 1) as u64) {
            rest.push(opts.last())
        } else {
            rest
        }
    }
}

/// The labels of `opts` at the positions where `sel` is true, in option
/// order.
pub open spec fn chosen_labels(opts: Seq<Seq<char>>, sel: Seq<bool>) -> Seq<Seq<char>>
    recommends
        opts.len() == sel.len(),
    decreases opts.len(),
{
    if opts.len() == 0 {
        Seq::empty()
    } else {
        let rest = chosen_labels(opts.drop_last(), sel.drop_last());
        if sel.last() {
            rest.push(opts.last())
        } else {
            rest
        }
    }
}

/// The entrywise conjunction of two selections.
pub open spec fn both_selected(a: Seq<bool>, b: Seq<bool>) -> Seq<bool>
    recommends
        a.len() == b.len(),
{
    Seq::new(a.len(), |i: int| a[i] && b[i])
}

proof fn lemma_or_single_bit(m: u64, j: u64, i: u64)
    by (bit_vector)
    requires
        i < 64,
        j < 64,
    ensures
        bit_set(m | (1u64 << j), i) == (i == j || bit_set(m, i)),
{
}

proof fn lemma_zero_bit(i: u64)
    by (bit_vector)
    requires
        i < 64,
    ensures
        !bit_set(0u64, i),
{
}

proof fn lemma_marker_or_bit(m: u64, i: u64)
    by (bit_vector)
    requires
        i < 63,
    ensures
        bit_set(m | 0x8000_0000_0000_0000u64, i) == bit_set(m, i),
{
}

proof fn lemma_combined_bit(x: u64, y: u64, i: u64)
    by (bit_vector)
    requires
        i < 63,
    ensures
        bit_set((x & y) & 0x7fff_ffff_ffff_ffffu64, i) == (bit_set(x, i) && bit_set(y, i)),
{
}

/// A zero opinion value is unmarked: it is the unanswered sentinel.
pub proof fn lemma_zero_unmarked()
    by (bit_vector)
    ensures
        0u64 & 0x8000_0000_0000_0000u64 == 0,
{
}

/// The marker bit reads back as set on every encoded answer.
pub proof fn lemma_marker_set_after_or(m: u64)
    by (bit_vector)
    ensures
        (m | 0x8000_0000_0000_0000u64) & 0x8000_0000_0000_0000u64 == 0x8000_0000_0000_0000u64,
{
}

/// Every bit of a packed selection lies below the selection's length.
pub proof fn lemma_mask_of_bits(s: Seq<bool>)
    requires
        s.len() <= 63,
    ensures
        forall|i: u64| i < s.len() ==> bit_set(mask_of(s), i) == s[i as int],
        forall|i: u64| s.len() <= i < 64 ==> !bit_set(mask_of(s), i),
    decreases s.len(),
{
    if s.len() == 0 {
        assert(mask_of(s) == 0u64);
        assert forall|i: u64| i < 64 implies !bit_set(mask_of(s), i) by {
            lemma_zero_bit(i);
        }
    } else {
        let t = s.drop_last();
        lemma_mask_of_bits(t);
        let j = (s.len() - 1) as u64;
        let m = mask_of(t);
        if s.last() {
            assert(mask_of(s) == m | (1u64 << j));
            assert forall|i: u64| i < 64 implies bit_set(mask_of(s), i) == (i == j || bit_set(
                m,
                i,
            )) by {
                lemma_or_single_bit(m, j, i);
            }
        } else {
            assert(mask_of(s) == m);
        }
        assert forall|i: u64| i < s.len() implies bit_set(mask_of(s), i) == s[i as int] by {
            if i < j {
                assert(bit_set(m, i) == t[i as int]);
                assert(t[i as int] == s[i as int]);
            } else {
                assert(i == j);
                assert(s[i as int] == s.last());
                assert(!bit_set(m, i));
            }
        }
        assert forall|i: u64| s.len() <= i < 64 implies !bit_set(mask_of(s), i) by {
            assert(!bit_set(m, i));
        }
    }
}

/// A mask whose bits spell out `sel` selects exactly the labels `sel` chooses.
proof fn lemma_selected_labels_of_selection(opts: Seq<Seq<char>>, sel: Seq<bool>, m: u64)
    requires
        opts.len() == sel.len() <= 63,
        forall|i: u64| i < sel.len() ==> bit_set(m, i) == sel[i as int],
    ensures
        selected_labels(opts, m) == chosen_labels(opts, sel),
    decreases opts.len(),
{
    if opts.len() > 0 {
        lemma_selected_labels_of_selection(opts.drop_last(), sel.drop_last(), m);
    }
}

/// Decoding an encoded selection against the chart it was made for returns
/// exactly the labels at the selection's true positions, in option order.
pub proof fn lemma_encode_then_decode(opts: Seq<Seq<char>>, sel: Seq<bool>)
    requires
        opts.len() == sel.len() <= 63,
    ensures
        selected_labels(opts, encoded_mask(sel)) == chosen_labels(opts, sel),
{
    lemma_mask_of_bits(sel);
    let m = mask_of(sel);
    assert forall|i: u64| i < sel.len() implies bit_set(encoded_mask(sel), i) == sel[i as int] by {
        lemma_marker_or_bit(m, i);
    }
    lemma_selected_labels_of_selection(opts, sel, encoded_mask(sel));
}

/// The match of two independently encoded selections is exactly the labels
/// at the positions both selections have true, in option order.
pub proof fn lemma_match_is_intersection(opts: Seq<Seq<char>>, a: Seq<bool>, b: Seq<bool>)
    requires
        opts.len() == a.len() <= 63,
        a.len() == b.len(),
    ensures
        selected_labels(opts, combined_mask(encoded_mask(a), encoded_mask(b))) == chosen_labels(
            opts,
            both_selected(a, b),
        ),
{
    lemma_mask_of_bits(a);
    lemma_mask_of_bits(b);
    let ma = mask_of(a);
    let mb = mask_of(b);
    let c = combined_mask(encoded_mask(a), encoded_mask(b));
    assert forall|i: u64| i < a.len() implies bit_set(c, i) == both_selected(a, b)[i as int] by {
        lemma_combined_bit(encoded_mask(a), encoded_mask(b), i);
        lemma_marker_or_bit(ma, i);
        lemma_marker_or_bit(mb, i);
    }
    lemma_selected_labels_of_selection(opts, both_selected(a, b), c);
}

/// Encode a party's selection against the permitted count.
///
/// Succeeds exactly when at most `max_checks` entries are true, and then
/// returns the packed selection with the marker bit set; otherwise the
/// request is invalid.
pub fn encode_selection(selections: &Vec<bool>, max_checks: i16) -> (r: Result<u64, DiwkError>)
    requires
        selections@.len() <= 63,
    ensures
        count_true(selections@) <= max_checks ==> r == Ok::<u64, DiwkError>(
            encoded_mask(selections@),
        ),
        count_true(selections@) > max_checks ==> r == Err::<u64, DiwkError>(
            DiwkError::InvalidRequest,
        ),
{
    let n = selections.len();
    let mut i: usize = 0;
    let mut mask: u64 = 0;
    let mut count: u16 = 0;
    while i < n
        invariant
            i <= n,
            n == selections@.len(),
            n <= 63,
            mask == mask_of(selections@.take(i as int)),
            count == count_true(selections@.take(i as int)),
            count <= i,
        decreases n - i,
    {
        proof {
            assert(selections@.take(i as int + 1).drop_last() =~= selections@.take(i as int));
            assert(selections@.take(i as int + 1).last() == selections@[i as int]);
        }
        if selections[i] {
            mask = mask | (1u64 << (i as u64));
            count = count + 1;
        }
        i = i + 1;
    }
    proof {
        assert(selections@.take(n as int) =~= selections@);
    }
    let too_many: bool = if max_checks < 0 {
        true
    } else {
        count > (max_checks as u16)
    };
    if too_many {
        Err(DiwkError::InvalidRequest)
    } else {
        Ok(mask | MARKER_BIT)
    }
}

/// Decode a stored mask against a chart's option labels: the labels whose
/// bit is set, in option order. Bits at or above the option count, the
/// marker bit among them, are never read.
pub fn matched_labels(options: &Vec<String>, mask: u64) -> (r: Vec<String>)
    requires
        options@.len() <= 63,
    ensures
        r.deep_view() == selected_labels(options.deep_view(), mask),
{
    let ghost dv = options.deep_view();
    let mut r: Vec<String> = Vec::new();
    let n = options.len();
    let mut i: usize = 0;
    while i < n
        invariant
            i <= n,
            n == options@.len(),
            n <= 63,
            dv == options.deep_view(),
            dv.len() == n,
            r.deep_view() == selected_labels(dv.take(i as int), mask),
        decreases n - i,
    {
        proof {
            assert(dv.take(i as int + 1).drop_last() =~= dv.take(i as int));
            assert(dv.take(i as int + 1).last() == dv[i as int]);
        }
        if (mask >> (i as u64)) & 1 == 1 {
            let label = options[i].clone();
            assert(label@ == dv[i as int]);
            r.push(label);
            proof {
                assert(r.deep_view() =~= selected_labels(dv.take(i as int), mask).push(
                    dv[i as int],
                ));
            }
        } else {
            proof {
                assert(r.deep_view() =~= selected_labels(dv.take(i as int), mask));
            }
        }
        i = i + 1;
    }
    proof {
        assert(dv.take(n as int) =~= dv);
    }
    r
}

/// The AND-combination of two stored answers, marker bit cleared.
pub fn intersect_masks(a: u64, b: u64) -> (r: u64)
    ensures
        r == combined_mask(a, b),
{
    (a & b) & SELECTION_BITS
}

} // verus!
