//! The in-memory chart and session store.
//!
//! This mirrors the service's two tables. Charts are created once, never
//! change, and are identified by position: the chart with id `i` sits at
//! index `i - 1`. Sessions carry generated, strictly increasing ids, move
//! through the two-phase gate of [`crate::session`], and are removed on
//! completion or by the expiry sweep.

use vstd::prelude::*;

use crate::codec::{lemma_zero_unmarked, selected_labels, MAX_OPTIONS};
use crate::errors::DiwkError;
use crate::session::{
    apply_read, apply_write, read_refusal, read_result_mask, write_refusal, written_row,
    SessionRow, CONSUMED_PASS,
};
use crate::text::{contains_ci, str_contains_ci};

verus! {

/// How long a session lives before the sweep removes it, in milliseconds.
pub const SESSION_LIFETIME_MS: i64 = 24 * 60 * 60 * 1000;

/// The most characters an option label may carry.
pub const MAX_OPTION_LEN: usize = 127;

/// A chart: a titled, described, ordered list of option labels.
pub struct Chart {
    /// Searchable display name.
    pub title: String,
    /// Free-form description.
    pub description: String,
    /// The selectable options; their order fixes the bit positions.
    pub options: Vec<String>,
}

impl Chart {
    /// Chart limits: at most 63 options, each at most 127 characters.
    pub open spec fn wf(self) -> bool {
        &&& self.options@.len() <= MAX_OPTIONS
        &&& forall|i: int|
            0 <= i < self.options@.len() ==> (#[trigger] self.options@[i])@.len() <= MAX_OPTION_LEN
    }
}

/// Whether no two rows carry the same id.
pub open spec fn unique_ids(s: Seq<SessionRow>) -> bool {
    forall|p: int, q: int|
        0 <= p < q < s.len() ==> (#[trigger] s[p]).id != (#[trigger] s[q]).id
}

/// The row stored under `id`: the first row carrying it, which under the
/// store's uniqueness invariant is the only one.
pub open spec fn spec_find_session(s: Seq<SessionRow>, id: i32) -> Option<SessionRow>
    decreases s.len(),
{
    if s.len() == 0 {
        None
    } else if s[0].id == id {
        Some(s[0])
    } else {
        spec_find_session(s.drop_first(), id)
    }
}

/// A lookup misses exactly when no row carries the id.
pub proof fn lemma_find_session_none(s: Seq<SessionRow>, id: i32)
    ensures
        spec_find_session(s, id) is None <==> forall|i: int|
            0 <= i < s.len() ==> (#[trigger] s[i]).id != id,
    decreases s.len(),
{
    if s.len() > 0 {
        let t = s.drop_first();
        lemma_find_session_none(t, id);
        assert(forall|j: int| 0 <= j < t.len() ==> #[trigger] t[j] == s[j + 1]);
        if spec_find_session(s, id) is None {
            assert forall|i: int| 0 <= i < s.len() implies (#[trigger] s[i]).id != id by {
                if i > 0 {
                    assert(t[i - 1] == s[i]);
                    assert(t[i - 1].id != id);
                }
            }
        }
    }
}

/// A hit returns a row that carries the id and sits in the sequence.
pub proof fn lemma_find_session_some(s: Seq<SessionRow>, id: i32)
    requires
        spec_find_session(s, id) is Some,
    ensures
        spec_find_session(s, id).unwrap().id == id,
        exists|i: int| 0 <= i < s.len() && s[i] == spec_find_session(s, id).unwrap(),
    decreases s.len(),
{
    if s.len() > 0 && s[0].id != id {
        lemma_find_session_some(s.drop_first(), id);
        let r = spec_find_session(s, id).unwrap();
        let i = choose|i: int| 0 <= i < s.drop_first().len() && s.drop_first()[i] == r;
        assert(s[i + 1] == r);
    }
}

/// Under unique ids, a lookup finds the row at any index that carries the id.
pub proof fn lemma_find_session_at(s: Seq<SessionRow>, id: i32, i: int)
    requires
        unique_ids(s),
        0 <= i < s.len(),
        s[i].id == id,
    ensures
        spec_find_session(s, id) == Some(s[i]),
    decreases s.len(),
{
    if i > 0 {
        let t = s.drop_first();
        assert(forall|j: int| 0 <= j < t.len() ==> #[trigger] t[j] == s[j + 1]);
        assert forall|p: int, q: int| 0 <= p < q < t.len() implies (#[trigger] t[p]).id != (
        #[trigger] t[q]).id by {
            assert(t[p] == s[p + 1]);
            assert(t[q] == s[q + 1]);
        }
        lemma_find_session_at(t, id, i - 1);
        assert(s[0].id != id);
    }
}

/// Replacing the row at `i` by one with the same id replaces what the id
/// finds and leaves every other lookup alone.
pub proof fn lemma_find_after_update(s: Seq<SessionRow>, i: int, row: SessionRow)
    requires
        unique_ids(s),
        0 <= i < s.len(),
        row.id == s[i].id,
    ensures
        unique_ids(s.update(i, row)),
        spec_find_session(s.update(i, row), row.id) == Some(row),
        forall|id2: i32|
            id2 != row.id ==> spec_find_session(s.update(i, row), id2) == spec_find_session(
                s,
                id2,
            ),
{
    let t = s.update(i, row);
    assert(forall|j: int| 0 <= j < t.len() ==> (#[trigger] t[j]).id == s[j].id);
    assert forall|p: int, q: int| 0 <= p < q < t.len() implies (#[trigger] t[p]).id != (
    #[trigger] t[q]).id by {
        assert(s[p].id != s[q].id);
    }
    lemma_find_session_at(t, row.id, i);
    assert forall|id2: i32| id2 != row.id implies spec_find_session(t, id2) == spec_find_session(
        s,
        id2,
    ) by {
        if spec_find_session(s, id2) is None {
            lemma_find_session_none(s, id2);
            lemma_find_session_none(t, id2);
        } else {
            lemma_find_session_some(s, id2);
            let k = choose|k: int| 0 <= k < s.len() && s[k] == spec_find_session(s, id2).unwrap();
            assert(s[k].id == id2);
            assert(k != i);
            assert(t[k] == s[k]);
            lemma_find_session_at(t, id2, k);
        }
    }
}

/// Removing the row at `i` makes its id miss and leaves every other lookup
/// alone.
pub proof fn lemma_find_after_remove(s: Seq<SessionRow>, i: int)
    requires
        unique_ids(s),
        0 <= i < s.len(),
    ensures
        unique_ids(s.remove(i)),
        spec_find_session(s.remove(i), s[i].id) is None,
        forall|id2: i32|
            id2 != s[i].id ==> spec_find_session(s.remove(i), id2) == spec_find_session(s, id2),
{
    let t = s.remove(i);
    s.remove_ensures(i);
    assert forall|p: int, q: int| 0 <= p < q < t.len() implies (#[trigger] t[p]).id != (
    #[trigger] t[q]).id by {
        let p0: int = if p < i {
            p
        } else {
            p + 1
        };
        let q0: int = if q < i {
            q
        } else {
            q + 1
        };
        assert(t[p] == s[p0]);
        assert(t[q] == s[q0]);
        assert(s[p0].id != s[q0].id);
    }
    assert forall|j: int| 0 <= j < t.len() implies (#[trigger] t[j]).id != s[i].id by {
        let j0: int = if j < i {
            j
        } else {
            j + 1
        };
        assert(t[j] == s[j0]);
        assert(s[j0].id != s[i].id);
    }
    lemma_find_session_none(t, s[i].id);
    assert forall|id2: i32| id2 != s[i].id implies spec_find_session(t, id2) == spec_find_session(
        s,
        id2,
    ) by {
        if spec_find_session(s, id2) is None {
            lemma_find_session_none(s, id2);
            lemma_find_session_none(t, id2);
        } else {
            lemma_find_session_some(s, id2);
            let k = choose|k: int| 0 <= k < s.len() && s[k] == spec_find_session(s, id2).unwrap();
            assert(s[k].id == id2);
            assert(k != i);
            let k1: int = if k < i {
                k
            } else {
                k - 1
            };
            assert(t[k1] == s[k]);
            lemma_find_session_at(t, id2, k1);
        }
    }
}

/// Appending a row with a fresh id makes its id find it and leaves every
/// other lookup alone.
pub proof fn lemma_find_after_push(s: Seq<SessionRow>, row: SessionRow)
    requires
        unique_ids(s),
        forall|j: int| 0 <= j < s.len() ==> (#[trigger] s[j]).id != row.id,
    ensures
        unique_ids(s.push(row)),
        spec_find_session(s.push(row), row.id) == Some(row),
        forall|id2: i32|
            id2 != row.id ==> spec_find_session(s.push(row), id2) == spec_find_session(s, id2),
{
    let t = s.push(row);
    assert(forall|j: int| 0 <= j < s.len() ==> #[trigger] t[j] == s[j]);
    assert(t[s.len() as int] == row);
    assert forall|p: int, q: int| 0 <= p < q < t.len() implies (#[trigger] t[p]).id != (
    #[trigger] t[q]).id by {
        if q < s.len() {
            assert(s[p].id != s[q].id);
        } else {
            assert(t[q] == row);
            assert(t[p] == s[p]);
        }
    }
    lemma_find_session_at(t, row.id, s.len() as int);
    assert forall|id2: i32| id2 != row.id implies spec_find_session(t, id2) == spec_find_session(
        s,
        id2,
    ) by {
        if spec_find_session(s, id2) is None {
            lemma_find_session_none(s, id2);
            lemma_find_session_none(t, id2);
        } else {
            lemma_find_session_some(s, id2);
            let k = choose|k: int| 0 <= k < s.len() && s[k] == spec_find_session(s, id2).unwrap();
            lemma_find_session_at(t, id2, k);
        }
    }
}

/// The rows the sweep keeps: those not yet past the cutoff, in order.
pub open spec fn live_sessions(s: Seq<SessionRow>, cutoff: i64) -> Seq<SessionRow>
    decreases s.len(),
{
    if s.len() == 0 {
        Seq::empty()
    } else {
        let rest = live_sessions(s.drop_last(), cutoff);
        if s.last().creation_time >= cutoff {
            rest.push(s.last())
        } else {
            rest
        }
    }
}

/// What the sweep keeps is a subsequence: every kept row stood in the store,
/// every kept row is unexpired, and every unexpired row is kept.
pub proof fn lemma_live_sessions_props(s: Seq<SessionRow>, cutoff: i64)
    ensures
        live_sessions(s, cutoff).len() <= s.len(),
        forall|p: int|
            0 <= p < live_sessions(s, cutoff).len() ==> (#[trigger] live_sessions(
                s,
                cutoff,
            )[p]).creation_time >= cutoff,
        forall|p: int|
            0 <= p < live_sessions(s, cutoff).len() ==> exists|j: int|
                0 <= j < s.len() && (#[trigger] s[j]) == (#[trigger] live_sessions(s, cutoff)[p]),
        forall|j: int|
            0 <= j < s.len() && (#[trigger] s[j]).creation_time >= cutoff ==> live_sessions(
                s,
                cutoff,
            ).contains(s[j]),
    decreases s.len(),
{
    if s.len() > 0 {
        let t = s.drop_last();
        lemma_live_sessions_props(t, cutoff);
        let live = live_sessions(s, cutoff);
        let livet = live_sessions(t, cutoff);
        assert(forall|j: int| 0 <= j < t.len() ==> #[trigger] t[j] == s[j]);
        assert forall|p: int| #![trigger live[p]] 0 <= p < live.len() implies exists|j: int|
            0 <= j < s.len() && (#[trigger] s[j]) == live[p] by {
            if p < livet.len() {
                let j = choose|j: int| 0 <= j < t.len() && t[j] == livet[p];
                assert(s[j] == live[p]);
            } else {
                assert(live[p] == s.last());
                assert(s[s.len() - 1] == live[p]);
            }
        }
        assert forall|j: int|
            0 <= j < s.len() && (#[trigger] s[j]).creation_time >= cutoff implies live.contains(
            s[j],
        ) by {
            if j < t.len() {
                assert(livet.contains(t[j]));
                let p = choose|p: int| 0 <= p < livet.len() && livet[p] == t[j];
                assert(live[p] == s[j]);
            } else {
                assert(live.last() == s[j]);
            }
        }
    }
}

/// The sweep keeps ids unique.
pub proof fn lemma_live_sessions_unique(s: Seq<SessionRow>, cutoff: i64)
    requires
        unique_ids(s),
    ensures
        unique_ids(live_sessions(s, cutoff)),
    decreases s.len(),
{
    if s.len() > 0 {
        let t = s.drop_last();
        assert(forall|j: int| 0 <= j < t.len() ==> #[trigger] t[j] == s[j]);
        assert forall|p: int, q: int| 0 <= p < q < t.len() implies (#[trigger] t[p]).id != (
        #[trigger] t[q]).id by {
            assert(s[p].id != s[q].id);
        }
        lemma_live_sessions_unique(t, cutoff);
        lemma_live_sessions_props(t, cutoff);
        let live = live_sessions(s, cutoff);
        let livet = live_sessions(t, cutoff);
        if s.last().creation_time >= cutoff {
            assert forall|p: int, q: int| 0 <= p < q < live.len() implies (#[trigger] live[p]).id
                != (#[trigger] live[q]).id by {
                if q < livet.len() {
                    assert(livet[p].id != livet[q].id);
                } else {
                    assert(live[q] == s.last());
                    let j = choose|j: int| 0 <= j < t.len() && t[j] == livet[p];
                    assert(s[j].id != s[s.len() - 1].id);
                }
            }
        }
    }
}

/// Sessions past the cutoff become unfindable after the sweep; the rest are
/// found unchanged.
pub proof fn lemma_find_after_sweep(s: Seq<SessionRow>, cutoff: i64, id: i32)
    requires
        unique_ids(s),
    ensures
        match spec_find_session(s, id) {
            None => spec_find_session(live_sessions(s, cutoff), id) is None,
            Some(row) => if row.creation_time < cutoff {
                spec_find_session(live_sessions(s, cutoff), id) is None
            } else {
                spec_find_session(live_sessions(s, cutoff), id) == Some(row)
            },
        },
{
    let live = live_sessions(s, cutoff);
    lemma_live_sessions_props(s, cutoff);
    lemma_live_sessions_unique(s, cutoff);
    if spec_find_session(s, id) is None {
        lemma_find_session_none(s, id);
        assert forall|p: int| 0 <= p < live.len() implies (#[trigger] live[p]).id != id by {
            let j = choose|j: int| 0 <= j < s.len() && s[j] == live[p];
            assert(s[j].id != id);
        }
        lemma_find_session_none(live, id);
    } else {
        lemma_find_session_some(s, id);
        let row = spec_find_session(s, id).unwrap();
        let k = choose|k: int| 0 <= k < s.len() && s[k] == row;
        if row.creation_time < cutoff {
            assert forall|p: int| 0 <= p < live.len() implies (#[trigger] live[p]).id != id by {
                let j = choose|j: int| 0 <= j < s.len() && s[j] == live[p];
                if s[j].id == id {
                    assert(j == k) by {
                        if j != k {
                            assert(s[j].id != s[k].id);
                        }
                    }
                    assert(live[p].creation_time >= cutoff);
                }
            }
            lemma_find_session_none(live, id);
        } else {
            assert(live.contains(s[k]));
            let p = choose|p: int| 0 <= p < live.len() && live[p] == s[k];
            lemma_find_session_at(live, id, p);
        }
    }
}

/// The chart ids whose title contains the keyword, ascending.
pub open spec fn matching_ids(charts: Seq<Chart>, keyword: Seq<char>) -> Seq<i32>
    decreases charts.len(),
{
    if charts.len() == 0 {
        Seq::empty()
    } else {
        let rest = matching_ids(charts.drop_last(), keyword);
        if contains_ci(charts.last().title@, keyword) {
            rest.push(charts.len() as i32)
        } else {
            rest
        }
    }
}

/// The whole store: both tables and the session id generator.
pub struct Store {
    /// The charts, position-identified: id `i` sits at index `i - 1`.
    pub charts: Vec<Chart>,
    /// The live sessions, in creation order.
    pub sessions: Vec<SessionRow>,
    /// The id the next session will get.
    pub next_session_id: i32,
}

impl Store {
    /// The row stored under a session id, if any.
    pub open spec fn spec_session(self, id: i32) -> Option<SessionRow> {
        spec_find_session(self.sessions@, id)
    }

    /// Whether a chart id refers to a stored chart.
    pub open spec fn chart_id_valid(self, id: i32) -> bool {
        1 <= id <= self.charts@.len()
    }

    /// The store's invariant: charts within limits, session ids unique and
    /// below the generator, every session well-formed, aimed at a stored
    /// chart, and allowed at most as many checks as that chart has options.
    pub open spec fn wf(self) -> bool {
        &&& self.charts@.len() <= i32::MAX
        &&& (forall|i: int| 0 <= i < self.charts@.len() ==> (#[trigger] self.charts@[i]).wf())
        &&& self.next_session_id >= 1
        &&& (forall|i: int| 0 <= i < self.sessions@.len() ==> (#[trigger] self.sessions@[i]).wf())
        &&& (forall|i: int|
            0 <= i < self.sessions@.len() ==> (#[trigger] self.sessions@[i]).id
                < self.next_session_id)
        &&& unique_ids(self.sessions@)
        &&& (forall|i: int|
            0 <= i < self.sessions@.len() ==> self.chart_id_valid(
                (#[trigger] self.sessions@[i]).chart_id,
            ))
        &&& (forall|i: int|
            0 <= i < self.sessions@.len() ==> (#[trigger] self.sessions@[i]).max_checks
                <= self.charts@[self.sessions@[i].chart_id - 1].options@.len())
    }

    /// An empty store.
    pub fn new() -> (s: Store)
        ensures
            s.wf(),
            s.charts@.len() == 0,
            s.sessions@.len() == 0,
            s.next_session_id == 1,
    {
        Store { charts: Vec::new(), sessions: Vec::new(), next_session_id: 1 }
    }

    /// Create a chart.
    ///
    /// Rejects more than 63 options, or any option longer than 127
    /// characters, as an invalid request without storing anything; otherwise
    /// appends the chart and returns its id.
    pub fn create_chart(&mut self, title: String, description: String, options: Vec<String>) -> (r:
        Result<i32, DiwkError>)
        requires
            old(self).wf(),
            old(self).charts@.len() < i32::MAX,
        ensures
            final(self).wf(),
            final(self).sessions@ == old(self).sessions@,
            final(self).next_session_id == old(self).next_session_id,
            ({
                let chart = (Chart { title: title, description: description, options: options });
                if chart.wf() {
                    &&& r == Ok::<i32, DiwkError>((old(self).charts@.len() + 1) as i32)
                    &&& final(self).charts@ == old(self).charts@.push(chart)
                } else {
                    &&& r == Err::<i32, DiwkError>(DiwkError::InvalidRequest)
                    &&& *final(self) == *old(self)
                }
            }),
    {
        let ghost wanted = (Chart { title: title, description: description, options: options });
        if options.len() > MAX_OPTIONS {
            proof {
                assert(!wanted.wf());
            }
            return Err(DiwkError::InvalidRequest);
        }
        let mut i: usize = 0;
        while i < options.len()
            invariant
                *self == *old(self),
                old(self).wf(),
                i <= options@.len(),
                wanted == (Chart { title: title, description: description, options: options }),
                forall|k: int| 0 <= k < i ==> (#[trigger] options@[k])@.len() <= MAX_OPTION_LEN,
            decreases options@.len() - i,
        {
            if options[i].as_str().unicode_len() > MAX_OPTION_LEN {
                proof {
                    assert(wanted.options@[i as int]@.len() > MAX_OPTION_LEN);
                    assert(!wanted.wf());
                }
                return Err(DiwkError::InvalidRequest);
            }
            i = i + 1;
        }
        let chart = Chart { title, description, options };
        proof {
            assert(chart == wanted);
            assert(chart.wf());
        }
        self.charts.push(chart);
        Ok(self.charts.len() as i32)
    }

    /// Look a chart up by id; misses are not found.
    pub fn get_chart(&self, id: i32) -> (r: Result<&Chart, DiwkError>)
        requires
            self.wf(),
        ensures
            match r {
                Ok(chart) => self.chart_id_valid(id) && *chart == self.charts@[id - 1],
                Err(e) => e == DiwkError::NotFound && !self.chart_id_valid(id),
            },
    {
        if id < 1 {
            return Err(DiwkError::NotFound);
        }
        let idx = (id - 1) as usize;
        if idx >= self.charts.len() {
            return Err(DiwkError::NotFound);
        }
        Ok(&self.charts[idx])
    }

    /// The index of the session carrying `id`, if any.
    fn find_session_index(&self, id: i32) -> (r: Option<usize>)
        requires
            self.wf(),
        ensures
            match r {
                Some(i) => i < self.sessions@.len() && self.sessions@[i as int].id == id
                    && self.spec_session(id) == Some(self.sessions@[i as int]),
                None => self.spec_session(id) is None,
            },
    {
        let mut i: usize = 0;
        while i < self.sessions.len()
            invariant
                self.wf(),
                i <= self.sessions@.len(),
                forall|j: int| 0 <= j < i ==> (#[trigger] self.sessions@[j]).id != id,
            decreases self.sessions@.len() - i,
        {
            if self.sessions[i].id == id {
                proof {
                    lemma_find_session_at(self.sessions@, id, i as int);
                }
                return Some(i);
            }
            i = i + 1;
        }
        proof {
            lemma_find_session_none(self.sessions@, id);
        }
        None
    }

    /// Start a session against a chart.
    ///
    /// Fails as not found when the chart does not exist, and as an invalid
    /// request when `max_checks` is negative or exceeds the chart's option
    /// count; otherwise stores a fresh unanswered session and returns its id
    /// and the issued write-password.
    pub fn start_session(&mut self, chart_id: i32, max_checks: i16, now_ms: i64) -> (r: Result<
        (i32, i32),
        DiwkError,
    >)
        requires
            old(self).wf(),
            old(self).next_session_id < i32::MAX,
        ensures
            final(self).wf(),
            final(self).charts@ == old(self).charts@,
            match r {
                Err(e) => *final(self) == *old(self) && if !old(self).chart_id_valid(chart_id) {
                    e == DiwkError::NotFound
                } else {
                    e == DiwkError::InvalidRequest && !(0 <= max_checks <= old(
                        self,
                    ).charts@[chart_id - 1].options@.len())
                },
                Ok(ids) => {
                    &&& old(self).chart_id_valid(chart_id)
                    &&& 0 <= max_checks <= old(self).charts@[chart_id - 1].options@.len()
                    &&& ids.0 == old(self).next_session_id
                    &&& 0 <= ids.1 < i32::MAX
                    &&& final(self).sessions@ == old(self).sessions@.push(
                        (SessionRow {
                            id: ids.0,
                            chart_id: chart_id,
                            max_checks: max_checks,
                            opinion: 0,
                            read_pass: 0,
                            write_pass: ids.1,
                            creation_time: now_ms,
                        }),
                    )
                    &&& final(self).next_session_id == old(self).next_session_id + 1
                },
            },
    {
        if chart_id < 1 {
            return Err(DiwkError::NotFound);
        }
        let chart_idx = (chart_id - 1) as usize;
        if chart_idx >= self.charts.len() {
            return Err(DiwkError::NotFound);
        }
        let options_len = self.charts[chart_idx].options.len();
        if max_checks < 0 || (max_checks as usize) > options_len {
            return Err(DiwkError::InvalidRequest);
        }
        let sid = self.next_session_id;
        let write_password = crate::rng::fresh_password();
        let row = SessionRow {
            id: sid,
            chart_id,
            max_checks,
            opinion: 0,
            read_pass: 0,
            write_pass: write_password,
            creation_time: now_ms,
        };
        proof {
            lemma_zero_unmarked();
            assert(row.wf());
            lemma_find_after_push(self.sessions@, row);
        }
        self.sessions.push(row);
        self.next_session_id = sid + 1;
        Ok((sid, write_password))
    }

    /// Show a session's chart to the write-phase party.
    ///
    /// Requires the session to exist, its write-phase to be unconsumed, and
    /// the write-password to match; then hands back the chart and the
    /// session's selection allowance.
    pub fn view_write_phase(&self, id: i32, password: i32) -> (r: Result<(&Chart, i16), DiwkError>)
        requires
            self.wf(),
        ensures
            ({
                let found = self.spec_session(id);
                match r {
                    Err(e) => {
                        &&& found is None ==> e == DiwkError::NotFound
                        &&& found is Some ==> {
                            let row = found.unwrap();
                            if row.write_pass == CONSUMED_PASS {
                                e == DiwkError::AlreadyFinished
                            } else {
                                password != row.write_pass && e == DiwkError::IncorrectPassword
                            }
                        }
                    },
                    Ok(view) => {
                        &&& found is Some
                        &&& found.unwrap().write_pass != CONSUMED_PASS
                        &&& password == found.unwrap().write_pass
                        &&& *view.0 == self.charts@[found.unwrap().chart_id - 1]
                        &&& view.1 == found.unwrap().max_checks
                    },
                }
            }),
    {
        let idx = match self.find_session_index(id) {
            Some(i) => i,
            None => {
                return Err(DiwkError::NotFound);
            },
        };
        let row = &self.sessions[idx];
        if row.write_pass == CONSUMED_PASS {
            return Err(DiwkError::AlreadyFinished);
        }
        if password != row.write_pass {
            return Err(DiwkError::IncorrectPassword);
        }
        let chart_idx = (row.chart_id - 1) as usize;
        let max_checks = row.max_checks;
        Ok((&self.charts[chart_idx], max_checks))
    }

    /// Submit the first party's selection under the write-password.
    ///
    /// On success the session stores the encoded answer, its write-phase is
    /// consumed for good, and the issued read-password is returned. On any
    /// failure — unknown session, consumed write-phase, wrong password,
    /// oversized selection — the store is left exactly as it was.
    pub fn submit_write(&mut self, id: i32, password: i32, selections: &Vec<bool>) -> (r: Result<
        i32,
        DiwkError,
    >)
        requires
            old(self).wf(),
            selections@.len() <= MAX_OPTIONS,
        ensures
            final(self).wf(),
            final(self).charts@ == old(self).charts@,
            final(self).next_session_id == old(self).next_session_id,
            match spec_find_session(old(self).sessions@, id) {
                None => r == Err::<i32, DiwkError>(DiwkError::NotFound) && *final(self) == *old(
                    self,
                ),
                Some(row) => match write_refusal(row, password, selections@) {
                    Some(e) => r == Err::<i32, DiwkError>(e) && *final(self) == *old(self),
                    None => {
                        &&& r is Ok
                        &&& 0 <= r.unwrap() < i32::MAX
                        &&& final(self).spec_session(id) == Some(
                            written_row(row, selections@, r.unwrap()),
                        )
                        &&& forall|other: i32|
                            other != id ==> final(self).spec_session(other) == old(
                                self,
                            ).spec_session(other)
                        &&& final(self).sessions@.len() == old(self).sessions@.len()
                    },
                },
            },
    {
        let idx = match self.find_session_index(id) {
            Some(i) => i,
            None => {
                return Err(DiwkError::NotFound);
            },
        };
        let row = self.sessions[idx];
        let fresh_read_pass = crate::rng::fresh_password();
        match apply_write(&row, password, selections, fresh_read_pass) {
            Err(e) => Err(e),
            Ok(updated) => {
                proof {
                    lemma_find_after_update(self.sessions@, idx as int, updated);
                }
                self.sessions[idx] = updated;
                Ok(fresh_read_pass)
            },
        }
    }

    /// Submit the second party's selection under the read-password and
    /// reveal the match.
    ///
    /// On success the returned labels are exactly the chart options both
    /// parties selected, in option order, and the session is removed. On any
    /// failure — unknown session, write-phase still open, wrong password,
    /// oversized selection — the store is left exactly as it was.
    pub fn submit_read(&mut self, id: i32, password: i32, selections: &Vec<bool>) -> (r: Result<
        Vec<String>,
        DiwkError,
    >)
        requires
            old(self).wf(),
            selections@.len() <= MAX_OPTIONS,
        ensures
            final(self).wf(),
            final(self).charts@ == old(self).charts@,
            final(self).next_session_id == old(self).next_session_id,
            match spec_find_session(old(self).sessions@, id) {
                None => r == Err::<Vec<String>, DiwkError>(DiwkError::NotFound) && *final(self)
                    == *old(self),
                Some(row) => match read_refusal(row, password, selections@) {
                    Some(e) => r == Err::<Vec<String>, DiwkError>(e) && *final(self) == *old(self),
                    None => {
                        &&& r is Ok
                        &&& r.unwrap().deep_view() == selected_labels(
                            old(self).charts@[row.chart_id - 1].options.deep_view(),
                            read_result_mask(row, selections@),
                        )
                        &&& final(self).spec_session(id) is None
                        &&& forall|other: i32|
                            other != id ==> final(self).spec_session(other) == old(
                                self,
                            ).spec_session(other)
                        &&& final(self).sessions@.len() + 1 == old(self).sessions@.len()
                    },
                },
            },
    {
        let idx = match self.find_session_index(id) {
            Some(i) => i,
            None => {
                return Err(DiwkError::NotFound);
            },
        };
        let row = self.sessions[idx];
        match apply_read(&row, password, selections) {
            Err(e) => Err(e),
            Ok(mask) => {
                let chart_idx = (row.chart_id - 1) as usize;
                let labels = crate::codec::matched_labels(&self.charts[chart_idx].options, mask);
                proof {
                    lemma_find_after_remove(self.sessions@, idx as int);
                }
                self.sessions.remove(idx);
                Ok(labels)
            },
        }
    }

    /// Remove every session created before the cutoff.
    ///
    /// Keeps exactly the sessions at or past the cutoff, in order, and
    /// returns how many were removed. Chart data is untouched.
    pub fn sweep_expired(&mut self, cutoff_ms: i64) -> (removed: usize)
        requires
            old(self).wf(),
        ensures
            final(self).wf(),
            final(self).charts@ == old(self).charts@,
            final(self).next_session_id == old(self).next_session_id,
            final(self).sessions@ == live_sessions(old(self).sessions@, cutoff_ms),
            removed == old(self).sessions@.len() - final(self).sessions@.len(),
    {
        let ghost original = self.sessions@;
        let mut kept: Vec<SessionRow> = Vec::new();
        let n = self.sessions.len();
        let mut i: usize = 0;
        while i < n
            invariant
                *self == *old(self),
                original == self.sessions@,
                n == original.len(),
                i <= n,
                kept@ == live_sessions(original.take(i as int), cutoff_ms),
                kept@.len() <= i,
            decreases n - i,
        {
            proof {
                assert(original.take(i as int + 1).drop_last() =~= original.take(i as int));
                assert(original.take(i as int + 1).last() == original[i as int]);
            }
            let row = self.sessions[i];
            if row.creation_time >= cutoff_ms {
                kept.push(row);
            }
            i = i + 1;
        }
        proof {
            assert(original.take(n as int) =~= original);
            lemma_live_sessions_props(original, cutoff_ms);
            lemma_live_sessions_unique(original, cutoff_ms);
            assert forall|p: int| 0 <= p < kept@.len() implies (#[trigger] kept@[p]).wf()
                && kept@[p].id < self.next_session_id && self.chart_id_valid(kept@[p].chart_id)
                && kept@[p].max_checks <= self.charts@[kept@[p].chart_id - 1].options@.len() by {
                let j = choose|j: int| 0 <= j < original.len() && original[j] == kept@[p];
                assert(original[j].wf());
            }
        }
        let removed = n - kept.len();
        self.sessions = kept;
        removed
    }

    /// The ids of the charts whose title contains the keyword,
    /// case-insensitively over ASCII letters, ascending.
    pub fn search_titles(&self, keyword: &str) -> (r: Vec<i32>)
        requires
            self.wf(),
        ensures
            r@ == matching_ids(self.charts@, keyword@),
    {
        let mut found: Vec<i32> = Vec::new();
        let n = self.charts.len();
        let mut i: usize = 0;
        while i < n
            invariant
                self.wf(),
                n == self.charts@.len(),
                i <= n,
                found@ == matching_ids(self.charts@.take(i as int), keyword@),
            decreases n - i,
        {
            proof {
                assert(self.charts@.take(i as int + 1).drop_last() =~= self.charts@.take(i as int));
                assert(self.charts@.take(i as int + 1).last() == self.charts@[i as int]);
            }
            if str_contains_ci(self.charts[i].title.as_str(), keyword) {
                found.push((i + 1) as i32);
            }
            i = i + 1;
        }
        proof {
            assert(self.charts@.take(n as int) =~= self.charts@);
        }
        found
    }
}

/// The creation instant before which the sweep removes a session: one
/// session lifetime before now.
pub fn expiry_cutoff(now_ms: i64) -> (r: i64)
    requires
        now_ms - SESSION_LIFETIME_MS >= i64::MIN,
    ensures
        r == now_ms - SESSION_LIFETIME_MS,
{
    now_ms - SESSION_LIFETIME_MS
}

} // verus!
