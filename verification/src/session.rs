//! The two-phase session gate.
//!
//! A session moves strictly forward: created (write-password valid, no answer
//! stored) → first answer recorded (write-password invalidated, read-password
//! valid) → removed once the second answer reveals the match. The stored
//! `opinion` integer doubles as the phase flag: its marker bit is set exactly
//! when the first answer has been recorded, and the write-password is `-1`
//! exactly then as well.
//!
//! The transitions here are pure: they take a row and a submission and return
//! either the follow-up row (or match mask) or the failure, touching nothing.
//! The store applies them and mutates only on success.

use vstd::prelude::*;

use crate::codec::{
    both_selected, chosen_labels, combined_mask, count_true, encode_selection, encoded_mask,
    lemma_marker_set_after_or, lemma_match_is_intersection, selected_labels, MARKER_BIT,
};
use crate::errors::DiwkError;

verus! {

/// The password value that marks a consumed write-phase.
pub const CONSUMED_PASS: i32 = -1;

/// One session row, as the store keeps it.
#[derive(Clone, Copy, Debug, PartialEq, Eq, Structural)]
pub struct SessionRow {
    /// Generated identity, at least 1.
    pub id: i32,
    /// The chart this session is played against.
    pub chart_id: i32,
    /// Most options a party may select.
    pub max_checks: i16,
    /// The phase flag and first answer in one value: marker bit clear and
    /// value 0 while no answer is stored, marker bit set over the first
    /// party's packed selection afterwards.
    pub opinion: u64,
    /// Gate of the second submission; 0 until the first submission issues it.
    pub read_pass: i32,
    /// Gate of the first submission; `CONSUMED_PASS` once consumed.
    pub write_pass: i32,
    /// Creation instant in epoch milliseconds, for the expiry sweep.
    pub creation_time: i64,
}

impl SessionRow {
    /// Whether the first answer has been recorded.
    pub open spec fn has_first_answer(self) -> bool {
        self.opinion & MARKER_BIT == MARKER_BIT
    }

    /// Every row the store holds satisfies this: identities are positive,
    /// issued passwords are never negative, the write-password is consumed
    /// exactly when an answer is stored, and the opinion value stays at the
    /// bare sentinel until then.
    pub open spec fn wf(self) -> bool {
        &&& self.id >= 1
        &&& self.chart_id >= 1
        &&& self.max_checks >= 0
        &&& self.read_pass >= 0
        &&& self.write_pass >= CONSUMED_PASS
        &&& (self.write_pass == CONSUMED_PASS <==> self.has_first_answer())
        &&& (!self.has_first_answer() ==> self.opinion == 0)
    }
}

/// Why a write-phase submission to `row` is refused, if it is.
///
/// The checks run in this order: a consumed write-phase wins over a password
/// mismatch, which wins over an oversized selection.
pub open spec fn write_refusal(row: SessionRow, password: i32, sel: Seq<bool>) -> Option<
    DiwkError,
> {
    if row.write_pass == CONSUMED_PASS {
        Some(DiwkError::AlreadyFinished)
    } else if password != row.write_pass {
        Some(DiwkError::IncorrectPassword)
    } else if count_true(sel) > row.max_checks {
        Some(DiwkError::InvalidRequest)
    } else {
        None
    }
}

/// The row a successful write-phase submission leaves behind: the selection
/// stored with the marker bit set, the read-password issued, the
/// write-password consumed.
pub open spec fn written_row(row: SessionRow, sel: Seq<bool>, fresh_read_pass: i32) -> SessionRow {
    SessionRow {
        opinion: encoded_mask(sel),
        read_pass: fresh_read_pass,
        write_pass: CONSUMED_PASS,
        ..row
    }
}

/// Why a read-phase submission to `row` is refused, if it is.
///
/// An unconsumed write-phase wins over a password mismatch, which wins over
/// an oversized selection.
pub open spec fn read_refusal(row: SessionRow, password: i32, sel: Seq<bool>) -> Option<
    DiwkError,
> {
    if row.write_pass != CONSUMED_PASS {
        Some(DiwkError::NotYetFinished)
    } else if password != row.read_pass {
        Some(DiwkError::IncorrectPassword)
    } else if count_true(sel) > row.max_checks {
        Some(DiwkError::InvalidRequest)
    } else {
        None
    }
}

/// The match a successful read-phase submission reveals: the AND of the
/// stored answer and the new one, marker bit cleared.
pub open spec fn read_result_mask(row: SessionRow, sel: Seq<bool>) -> u64 {
    combined_mask(row.opinion, encoded_mask(sel))
}

/// Apply a write-phase submission to a row, without touching any store.
///
/// Succeeds exactly when the write-phase is unconsumed, the password
/// matches, and at most `max_checks` entries are selected; the follow-up row
/// then stores the encoded answer under the supplied fresh read-password.
pub fn apply_write(
    row: &SessionRow,
    password: i32,
    selections: &Vec<bool>,
    fresh_read_pass: i32,
) -> (r: Result<SessionRow, DiwkError>)
    requires
        row.wf(),
        selections@.len() <= 63,
        0 <= fresh_read_pass < i32::MAX,
    ensures
        match write_refusal(*row, password, selections@) {
            Some(e) => r == Err::<SessionRow, DiwkError>(e),
            None => r == Ok::<SessionRow, DiwkError>(
                written_row(*row, selections@, fresh_read_pass),
            ),
        },
        r is Ok ==> r.unwrap().wf() && r.unwrap().has_first_answer(),
{
    if row.write_pass == CONSUMED_PASS {
        return Err(DiwkError::AlreadyFinished);
    }
    if password != row.write_pass {
        return Err(DiwkError::IncorrectPassword);
    }
    let mask = match encode_selection(selections, row.max_checks) {
        Ok(mask) => mask,
        Err(e) => {
            return Err(e);
        },
    };
    proof {
        lemma_marker_set_after_or(crate::codec::mask_of(selections@));
    }
    Ok(
        SessionRow {
            id: row.id,
            chart_id: row.chart_id,
            max_checks: row.max_checks,
            opinion: mask,
            read_pass: fresh_read_pass,
            write_pass: CONSUMED_PASS,
            creation_time: row.creation_time,
        },
    )
}

/// Apply a read-phase submission to a row, without touching any store.
///
/// Succeeds exactly when the write-phase is consumed, the read-password
/// matches, and at most `max_checks` entries are selected; the result is the
/// match mask of the stored answer and the new one. The caller removes the
/// row on success.
pub fn apply_read(row: &SessionRow, password: i32, selections: &Vec<bool>) -> (r: Result<
    u64,
    DiwkError,
>)
    requires
        row.wf(),
        selections@.len() <= 63,
    ensures
        match read_refusal(*row, password, selections@) {
            Some(e) => r == Err::<u64, DiwkError>(e),
            None => r == Ok::<u64, DiwkError>(read_result_mask(*row, selections@)),
        },
{
    if row.write_pass != CONSUMED_PASS {
        return Err(DiwkError::NotYetFinished);
    }
    if password != row.read_pass {
        return Err(DiwkError::IncorrectPassword);
    }
    let mask = match encode_selection(selections, row.max_checks) {
        Ok(mask) => mask,
        Err(e) => {
            return Err(e);
        },
    };
    Ok(crate::codec::intersect_masks(row.opinion, mask))
}

/// The write-phase of a session can be consumed at most once: whatever row a
/// successful write-phase submission leaves behind, every further
/// write-phase submission to it is refused as already finished.
pub proof fn lemma_write_phase_consumed_once(
    row: SessionRow,
    password: i32,
    sel: Seq<bool>,
    fresh_read_pass: i32,
    later_password: i32,
    later_sel: Seq<bool>,
)
    requires
        write_refusal(row, password, sel) is None,
    ensures
        write_refusal(written_row(row, sel, fresh_read_pass), later_password, later_sel) == Some(
            DiwkError::AlreadyFinished,
        ),
{
}

/// A read-phase submission before any write-phase submission is refused as
/// not yet finished, whatever password and selection it carries: no match,
/// partial or empty, is ever revealed.
pub proof fn lemma_read_before_write(row: SessionRow, password: i32, sel: Seq<bool>)
    requires
        row.wf(),
        !row.has_first_answer(),
    ensures
        read_refusal(row, password, sel) == Some(DiwkError::NotYetFinished),
{
}

/// A wrong password in the phase a session is in is always refused as an
/// incorrect password — and since refused submissions return the row
/// untouched, it never mutates the session.
pub proof fn lemma_wrong_password_refused(row: SessionRow, password: i32, sel: Seq<bool>)
    requires
        row.wf(),
    ensures
        !row.has_first_answer() && password != row.write_pass ==> write_refusal(
            row,
            password,
            sel,
        ) == Some(DiwkError::IncorrectPassword),
        row.has_first_answer() && password != row.read_pass ==> read_refusal(row, password, sel)
            == Some(DiwkError::IncorrectPassword),
{
}

/// What a completed exchange reveals: once a first selection is stored by a
/// write-phase submission, a successful read-phase submission of a second
/// selection over the same chart reveals exactly the labels both selections
/// have true, in option order.
pub proof fn lemma_match_of_two_selections(
    opts: Seq<Seq<char>>,
    row: SessionRow,
    first: Seq<bool>,
    second: Seq<bool>,
    fresh_read_pass: i32,
)
    requires
        opts.len() == first.len() <= 63,
        first.len() == second.len(),
    ensures
        selected_labels(opts, read_result_mask(written_row(row, first, fresh_read_pass), second))
            == chosen_labels(opts, both_selected(first, second)),
{
    lemma_match_is_intersection(opts, first, second);
}

/// A selection with more true entries than the session's `max_checks` is
/// always refused as an invalid request, in either phase, when it gets past
/// the phase and password gates.
pub proof fn lemma_oversized_selection_refused(row: SessionRow, password: i32, sel: Seq<bool>)
    requires
        row.wf(),
        count_true(sel) > row.max_checks,
    ensures
        !row.has_first_answer() && password == row.write_pass ==> write_refusal(
            row,
            password,
            sel,
        ) == Some(DiwkError::InvalidRequest),
        row.has_first_answer() && password == row.read_pass ==> read_refusal(row, password, sel)
            == Some(DiwkError::InvalidRequest),
{
}

} // verus!
