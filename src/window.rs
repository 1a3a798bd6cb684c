//! The updater's state and its decisions.
//!
//! `UpdaterWindow` owns the list of pending updates, the status line and the control that
//! upgrades everything. Each trigger hands back the `Job` to run; whoever runs it later
//! delivers the job's `Outcome` to the matching `finish_*` or `handle_*` method. No method
//! waits for a job.
use vstd::prelude::*;

use crate::job::{
    Job,
    Outcome,
    UpdateManager,
    elevate_program,
    install_args,
    scan_program,
    upgrade_all_args,
};
use crate::scan::{parse_scan_output, scan_entries, entries_view};
use crate::update_row::{CandidateState, RowId, RowView, UpdateRow};

verus! {

#[derive(PartialEq, Eq, Structural, Clone, Copy, Debug)]
pub enum Status {
    /// Nothing has been asked yet.
    Idle,
    Checking,
    UpToDate,
    UpdatesFound,
    UpdatingAll,
    UpdateSuccessful,
    UpdateFailed,
}

pub open spec fn status_text(s: Status) -> Seq<char> {
    match s {
        Status::Idle => ""@,
        Status::Checking => "Checking..."@,
        Status::UpToDate => "System up to date"@,
        Status::UpdatesFound => "Updates found"@,
        Status::UpdatingAll => "Updating All..."@,
        Status::UpdateSuccessful => "Update Successful"@,
        Status::UpdateFailed => "Update Failed"@,
    }
}

impl Status {
    pub fn text(&self) -> (r: &'static str)
        ensures
            r@ == status_text(*self),
    {
        match self {
            Status::Idle => "",
            Status::Checking => "Checking...",
            Status::UpToDate => "System up to date",
            Status::UpdatesFound => "Updates found",
            Status::UpdatingAll => "Updating All...",
            Status::UpdateSuccessful => "Update Successful",
            Status::UpdateFailed => "Update Failed",
        }
    }
}

/// What the end of an upgrade of everything does to the list.
#[derive(PartialEq, Eq, Structural, Clone, Copy, Debug)]
pub enum ClearPolicy {
    /// The list is emptied, whether or not single installs are still running.
    Always,
    /// The list is emptied only where no single install is still running; otherwise every
    /// row keeps its place, and the rows that are not installing accept clicks again.
    UnlessInstalling,
}

pub struct UpdaterWindow {
    status: Status,
    rows: Vec<UpdateRow>,
    update_all_enabled: bool,
    generation: u64,
    policy: ClearPolicy,
}

pub struct WindowView {
    pub status: Status,
    pub rows: Seq<RowView>,
    /// Whether the control that upgrades everything accepts clicks.
    pub update_all_enabled: bool,
    /// Tells the rows of the latest scan from those of earlier ones.
    pub generation: u64,
    pub policy: ClearPolicy,
}

impl View for UpdaterWindow {
    type V = WindowView;

    closed spec fn view(&self) -> WindowView {
        WindowView {
            status: self.status,
            rows: self.rows@.map_values(|r: UpdateRow| r@),
            update_all_enabled: self.update_all_enabled,
            generation: self.generation,
            policy: self.policy,
        }
    }
}

/// Every row comes from the latest scan, and the rows keep the order of its lines, so no two
/// rows share an id.
pub open spec fn rows_wf(rows: Seq<RowView>, generation: u64) -> bool {
    &&& forall|i: int| 0 <= i < rows.len() ==> (#[trigger] rows[i]).id.generation == generation
    &&& forall|i: int, j: int|
        0 <= i < j < rows.len() ==> (#[trigger] rows[i]).id.index < (#[trigger] rows[j]).id.index
}

pub open spec fn next_generation(g: u64) -> u64 {
    if g == u64::MAX {
        0
    } else {
        (g + 1) as u64
    }
}

/// The rows made from the entries of a scan: idle, enabled, numbered in order.
pub open spec fn rows_for(entries: Seq<(Seq<char>, Seq<char>)>, generation: u64) -> Seq<RowView> {
    Seq::new(
        entries.len(),
        |k: int|
            RowView {
                id: RowId { generation, index: k as u64 },
                package: entries[k].0,
                version: entries[k].1,
                state: CandidateState::Idle,
                enabled: true,
            },
    )
}

/// The position of the first row at or after `i` with the id `id`, or -1.
pub open spec fn find_from(rows: Seq<RowView>, id: RowId, i: int) -> int
    decreases rows.len() - i,
{
    if i < 0 || i >= rows.len() {
        -1
    } else if rows[i].id == id {
        i
    } else {
        find_from(rows, id, i + 1)
    }
}

/// The position of the row with the id `id`, or -1 where there is none.
pub open spec fn row_index(rows: Seq<RowView>, id: RowId) -> int {
    find_from(rows, id, 0)
}

pub open spec fn any_installing(rows: Seq<RowView>) -> bool {
    exists|k: int| 0 <= k < rows.len() && (#[trigger] rows[k]).state == CandidateState::Installing
}

/// The rows once an upgrade of everything has ended, under `policy`.
pub open spec fn rows_after_upgrade(rows: Seq<RowView>, policy: ClearPolicy) -> Seq<RowView> {
    if policy == ClearPolicy::UnlessInstalling && any_installing(rows) {
        rows.map_values(
            |r: RowView|
                if r.state == CandidateState::Installing {
                    r
                } else {
                    RowView { enabled: true, ..r }
                },
        )
    } else {
        Seq::empty()
    }
}

pub proof fn lemma_find_from(rows: Seq<RowView>, id: RowId, i: int)
    requires
        0 <= i,
    ensures
        find_from(rows, id, i) == -1 || (i <= find_from(rows, id, i) < rows.len()
            && rows[find_from(rows, id, i)].id == id),
        find_from(rows, id, i) == -1 ==> forall|k: int| i <= k < rows.len() ==> rows[k].id != id,
        find_from(rows, id, i) != -1 ==> forall|k: int|
            i <= k < find_from(rows, id, i) ==> rows[k].id != id,
    decreases rows.len() - i,
{
    if i < rows.len() && rows[i].id != id {
        lemma_find_from(rows, id, i + 1);
    }
}

proof fn lemma_find_at(rows: Seq<RowView>, id: RowId, i: int, r: int)
    requires
        0 <= i <= r <= rows.len(),
        forall|k: int| i <= k < r ==> rows[k].id != id,
        r == rows.len() || rows[r].id == id,
    ensures
        find_from(rows, id, i) == if r == rows.len() {
            -1
        } else {
            r
        },
    decreases r - i,
{
    if i < r {
        lemma_find_at(rows, id, i + 1, r);
    }
}

/// A successful install takes its row out of the list, and only it: no row with that id is
/// left, every other row stays as it was and in the same order, and the list stays well formed.
pub proof fn lemma_install_success_removes_row(rows: Seq<RowView>, generation: u64, id: RowId)
    requires
        rows_wf(rows, generation),
        row_index(rows, id) >= 0,
    ensures
        ({
            let i = row_index(rows, id);
            let after = rows.remove(i);
            &&& row_index(after, id) == -1
            &&& after.len() == rows.len() - 1
            &&& forall|k: int| 0 <= k < i ==> after[k] == rows[k]
            &&& forall|k: int| i <= k < after.len() ==> after[k] == rows[k + 1]
            &&& rows_wf(after, generation)
        }),
{
    let i = row_index(rows, id);
    lemma_find_from(rows, id, 0);
    let after = rows.remove(i);
    assert forall|k: int| 0 <= k < after.len() implies after[k].id != id by {
        if k < i {
            assert(rows[k].id.index < rows[i].id.index);
        } else {
            assert(after[k] == rows[k + 1]);
            assert(rows[i].id.index < rows[k + 1].id.index);
        }
    }
    lemma_find_at(after, id, 0, after.len() as int);
    assert forall|a: int, b: int| 0 <= a < b < after.len() implies after[a].id.index
        < after[b].id.index by {
        let a0 = if a < i {
            a
        } else {
            a + 1
        };
        let b0 = if b < i {
            b
        } else {
            b + 1
        };
        assert(after[a] == rows[a0] && after[b] == rows[b0]);
        assert(rows[a0].id.index < rows[b0].id.index);
    }
    assert forall|a: int| 0 <= a < after.len() implies after[a].id.generation == generation by {
        if a < i {
            assert(after[a] == rows[a]);
        } else {
            assert(after[a] == rows[a + 1]);
        }
    }
}

/// After a failed install its row keeps its place and its control accepts clicks again, so a
/// new click on that row starts another install.
pub proof fn lemma_failed_install_allows_retry(rows: Seq<RowView>, generation: u64, id: RowId)
    requires
        rows_wf(rows, generation),
        row_index(rows, id) >= 0,
    ensures
        ({
            let i = row_index(rows, id);
            let after = rows.update(
                i,
                RowView { state: CandidateState::Failed, enabled: true, ..rows[i] },
            );
            &&& row_index(after, id) == i
            &&& after[i].enabled
            &&& after[i].state == CandidateState::Failed
            &&& rows_wf(after, generation)
        }),
{
    let i = row_index(rows, id);
    lemma_find_from(rows, id, 0);
    let after = rows.update(i, RowView { state: CandidateState::Failed, enabled: true, ..rows[i] });
    assert forall|k: int| 0 <= k < i implies after[k].id != id by {
        assert(after[k] == rows[k]);
    }
    lemma_find_at(after, id, 0, i);
    assert forall|a: int, b: int| 0 <= a < b < after.len() implies after[a].id.index
        < after[b].id.index by {
        assert(after[a].id == rows[a].id && after[b].id == rows[b].id);
    }
    assert forall|a: int| 0 <= a < after.len() implies after[a].id.generation == generation by {
        assert(after[a].id == rows[a].id);
    }
}

impl UpdaterWindow {
    pub open spec fn wf(&self) -> bool {
        rows_wf(self@.rows, self@.generation)
    }

    /// An updater with no rows, nothing asked yet, and the upgrade of everything available.
    pub fn new() -> (r: UpdaterWindow)
        ensures
            r.wf(),
            r@.status == Status::Idle,
            r@.rows == Seq::<RowView>::empty(),
            r@.update_all_enabled,
            r@.generation == 0,
            r@.policy == ClearPolicy::Always,
    {
        let r = UpdaterWindow {
            status: Status::Idle,
            rows: Vec::new(),
            update_all_enabled: true,
            generation: 0,
            policy: ClearPolicy::Always,
        };
        assert(r@.rows =~= Seq::<RowView>::empty());
        r
    }

    pub fn status(&self) -> (r: Status)
        ensures
            r == self@.status,
    {
        self.status
    }

    pub fn update_all_enabled(&self) -> (r: bool)
        ensures
            r == self@.update_all_enabled,
    {
        self.update_all_enabled
    }

    pub fn rows(&self) -> (r: &Vec<UpdateRow>)
        ensures
            r@.map_values(|x: UpdateRow| x@) == self@.rows,
    {
        &self.rows
    }

    pub fn clear_policy(&self) -> (r: ClearPolicy)
        ensures
            r == self@.policy,
    {
        self.policy
    }

    pub fn set_clear_policy(&mut self, policy: ClearPolicy)
        requires
            old(self).wf(),
        ensures
            final(self).wf(),
            final(self)@ == (WindowView { policy, ..old(self)@ }),
    {
        self.policy = policy;
        assert(self@.rows =~= old(self)@.rows);
    }

    /// The position of the row with the id `id`, if there is one.
    pub fn find_row(&self, id: RowId) -> (r: Option<usize>)
        ensures
            match r {
                Some(i) => i == row_index(self@.rows, id),
                None => row_index(self@.rows, id) == -1,
            },
            row_index(self@.rows, id) == -1 || row_index(self@.rows, id) < self@.rows.len(),
    {
        proof {
            lemma_find_from(self@.rows, id, 0);
        }
        let mut i: usize = 0;
        while i < self.rows.len()
            invariant
                i <= self.rows.len(),
                find_from(self@.rows, id, i as int) == row_index(self@.rows, id),
            decreases self.rows.len() - i,
        {
            if self.rows[i].id() == id {
                return Some(i);
            }
            i = i + 1;
        }
        None
    }

    /// Empties the list.
    pub fn clear_list(&mut self)
        requires
            old(self).wf(),
        ensures
            final(self).wf(),
            final(self)@ == (WindowView { rows: Seq::empty(), ..old(self)@ }),
    {
        self.rows = Vec::new();
        assert(self@.rows =~= Seq::<RowView>::empty());
    }

    /// Starts a scan: the status says so, the list is emptied at once, and the job that lists
    /// pending updates is handed back to be run.
    pub fn check_for_updates(&mut self) -> (j: Job)
        requires
            old(self).wf(),
        ensures
            final(self).wf(),
            final(self)@ == (WindowView {
                status: Status::Checking,
                rows: Seq::empty(),
                ..old(self)@
            }),
            j@.program == scan_program(),
            j@.args == Seq::<Seq<char>>::empty(),
    {
        self.status = Status::Checking;
        self.clear_list();
        UpdateManager::check_updates()
    }

    /// Takes the outcome of a scan. A failed scan, or one that announces nothing, leaves the
    /// list empty and the system up to date. Otherwise the list becomes one idle, enabled row
    /// for each announced update, in the order of the output.
    pub fn handle_update_result(&mut self, outcome: Outcome)
        requires
            old(self).wf(),
        ensures
            final(self).wf(),
            match outcome {
                Outcome::Success { stdout, .. } => {
                    let entries = scan_entries(stdout@);
                    let g = next_generation(old(self)@.generation);
                    final(self)@ == (WindowView {
                        status: if entries.len() == 0 {
                            Status::UpToDate
                        } else {
                            Status::UpdatesFound
                        },
                        rows: rows_for(entries, g),
                        generation: g,
                        ..old(self)@
                    })
                },
                Outcome::Failure { .. } => final(self)@ == (WindowView {
                    status: Status::UpToDate,
                    rows: Seq::empty(),
                    ..old(self)@
                }),
            },
    {
        match outcome {
            Outcome::Failure { .. } => {
                self.status = Status::UpToDate;
                self.clear_list();
            },
            Outcome::Success { stdout, .. } => {
                let entries = parse_scan_output(stdout.as_str());
                let g = if self.generation == u64::MAX {
                    0
                } else {
                    self.generation + 1
                };
                let ghost ev = entries_view(entries@);
                let mut rows: Vec<UpdateRow> = Vec::new();
                let mut k: usize = 0;
                while k < entries.len()
                    invariant
                        k <= entries.len(),
                        ev == entries_view(entries@),
                        rows@.map_values(|x: UpdateRow| x@) == rows_for(ev, g).take(k as int),
                    decreases entries.len() - k,
                {
                    let id = RowId { generation: g, index: k as u64 };
                    let row = UpdateRow::new(
                        id,
                        entries[k].name.clone(),
                        entries[k].version.clone(),
                    );
                    assert(ev[k as int] == entries@[k as int]@);
                    let ghost before = rows@;
                    rows.push(row);
                    assert(rows@.map_values(|x: UpdateRow| x@) =~= before.map_values(
                        |x: UpdateRow| x@,
                    ).push(row@));
                    k = k + 1;
                    assert(rows@.map_values(|x: UpdateRow| x@) =~= rows_for(ev, g).take(
                        k as int,
                    ));
                }
                self.status = if entries.len() == 0 {
                    Status::UpToDate
                } else {
                    Status::UpdatesFound
                };
                self.rows = rows;
                self.generation = g;
                assert(self@.rows =~= rows_for(ev, g));
            },
        }
    }

    /// A click on the install control of the row `id`. Where that row exists and its control
    /// accepts clicks, the row is installing, its control disabled, and the job that installs
    /// its package is handed back; otherwise nothing changes and no job is started.
    pub fn start_install(&mut self, id: RowId) -> (j: Option<Job>)
        requires
            old(self).wf(),
        ensures
            final(self).wf(),
            ({
                let i = row_index(old(self)@.rows, id);
                if i >= 0 && old(self)@.rows[i].enabled {
                    &&& final(self)@ == (WindowView {
                        rows: old(self)@.rows.update(
                            i,
                            RowView {
                                state: CandidateState::Installing,
                                enabled: false,
                                ..old(self)@.rows[i]
                            },
                        ),
                        ..old(self)@
                    })
                    &&& j is Some
                    &&& j->0@.program == elevate_program()
                    &&& j->0@.args == install_args(old(self)@.rows[i].package)
                } else {
                    final(self)@ == old(self)@ && j is None
                }
            }),
    {
        match self.find_row(id) {
            None => None,
            Some(i) => {
                if !self.rows[i].is_enabled() {
                    return None;
                }
                let job = self.rows[i].begin_install();
                assert(self@.rows =~= old(self)@.rows.update(
                    i as int,
                    RowView {
                        state: CandidateState::Installing,
                        enabled: false,
                        ..old(self)@.rows[i as int]
                    },
                ));
                Some(job)
            },
        }
    }

    /// Takes the outcome of the install of the row `id`. On success that row leaves the list
    /// and every other row stays as it was; on failure the row stays, has failed, and its
    /// control accepts a retry. Where the row is gone already, nothing changes.
    pub fn finish_install(&mut self, id: RowId, outcome: &Outcome)
        requires
            old(self).wf(),
        ensures
            final(self).wf(),
            ({
                let i = row_index(old(self)@.rows, id);
                if i < 0 {
                    final(self)@ == old(self)@
                } else if outcome.is_success() {
                    final(self)@ == (WindowView { rows: old(self)@.rows.remove(i), ..old(self)@ })
                } else {
                    final(self)@ == (WindowView {
                        rows: old(self)@.rows.update(
                            i,
                            RowView {
                                state: CandidateState::Failed,
                                enabled: true,
                                ..old(self)@.rows[i]
                            },
                        ),
                        ..old(self)@
                    })
                }
            }),
    {
        match self.find_row(id) {
            None => {},
            Some(i) => {
                if outcome.succeeded() {
                    let _ = self.rows.remove(i);
                    assert(self@.rows =~= old(self)@.rows.remove(i as int));
                } else {
                    self.rows[i].mark_failed();
                    assert(self@.rows =~= old(self)@.rows.update(
                        i as int,
                        RowView {
                            state: CandidateState::Failed,
                            enabled: true,
                            ..old(self)@.rows[i as int]
                        },
                    ));
                }
            },
        }
    }

    /// Disables the install control of every row.
    pub fn disable_all_row_buttons(&mut self)
        requires
            old(self).wf(),
        ensures
            final(self).wf(),
            final(self)@ == (WindowView {
                rows: old(self)@.rows.map_values(|r: RowView| RowView { enabled: false, ..r }),
                ..old(self)@
            }),
    {
        let ghost target = old(self)@.rows.map_values(|r: RowView| RowView { enabled: false, ..r });
        let mut k: usize = 0;
        while k < self.rows.len()
            invariant
                k <= self.rows.len(),
                self.rows.len() == old(self)@.rows.len(),
                self.status == old(self).status,
                self.update_all_enabled == old(self).update_all_enabled,
                self.generation == old(self).generation,
                self.policy == old(self).policy,
                target == old(self)@.rows.map_values(|r: RowView| RowView { enabled: false, ..r }),
                forall|m: int| 0 <= m < k ==> (#[trigger] self.rows@[m])@ == target[m],
                forall|m: int| k <= m < self.rows.len() ==> #[trigger] self.rows@[m] == old(
                    self,
                ).rows@[m],
            decreases self.rows.len() - k,
        {
            assert(old(self)@.rows[k as int] == old(self).rows@[k as int]@);
            self.rows[k].set_enabled(false);
            k = k + 1;
        }
        assert(self@.rows =~= target);
    }

    /// Starts the upgrade of everything: the status says so, every row's install control and
    /// the upgrade control itself are disabled, and the upgrade job is handed back to be run.
    pub fn update_all(&mut self) -> (j: Job)
        requires
            old(self).wf(),
        ensures
            final(self).wf(),
            final(self)@ == (WindowView {
                status: Status::UpdatingAll,
                rows: old(self)@.rows.map_values(|r: RowView| RowView { enabled: false, ..r }),
                update_all_enabled: false,
                ..old(self)@
            }),
            j@.program == elevate_program(),
            j@.args == upgrade_all_args(),
    {
        self.status = Status::UpdatingAll;
        self.disable_all_row_buttons();
        self.update_all_enabled = false;
        UpdateManager::upgrade_all()
    }

    /// Settles the list once an upgrade of everything has ended, under the clear policy.
    fn settle_rows(&mut self)
        requires
            old(self).wf(),
        ensures
            final(self).wf(),
            final(self)@ == (WindowView {
                rows: rows_after_upgrade(old(self)@.rows, old(self)@.policy),
                ..old(self)@
            }),
    {
        let mut installing = false;
        let mut k: usize = 0;
        while k < self.rows.len()
            invariant
                k <= self.rows.len(),
                installing <==> exists|m: int|
                    0 <= m < k && (#[trigger] self@.rows[m]).state == CandidateState::Installing,
            decreases self.rows.len() - k,
        {
            assert(self@.rows[k as int] == self.rows@[k as int]@);
            if self.rows[k].state() == CandidateState::Installing {
                installing = true;
            }
            k = k + 1;
        }
        if self.policy == ClearPolicy::UnlessInstalling && installing {
            let ghost target = rows_after_upgrade(old(self)@.rows, old(self)@.policy);
            let mut k: usize = 0;
            while k < self.rows.len()
                invariant
                    k <= self.rows.len(),
                    self.rows.len() == old(self)@.rows.len(),
                    self.status == old(self).status,
                    self.update_all_enabled == old(self).update_all_enabled,
                    self.generation == old(self).generation,
                    self.policy == old(self).policy,
                    target.len() == old(self)@.rows.len(),
                    target == old(self)@.rows.map_values(
                        |r: RowView|
                            if r.state == CandidateState::Installing {
                                r
                            } else {
                                RowView { enabled: true, ..r }
                            },
                    ),
                    forall|m: int| 0 <= m < k ==> (#[trigger] self.rows@[m])@ == target[m],
                    forall|m: int| k <= m < self.rows.len() ==> #[trigger] self.rows@[m] == old(
                        self,
                    ).rows@[m],
                decreases self.rows.len() - k,
            {
                if self.rows[k].state() != CandidateState::Installing {
                    self.rows[k].set_enabled(true);
                }
                k = k + 1;
            }
            assert(self@.rows =~= target);
        } else {
            self.clear_list();
        }
    }

    fn success_update(&mut self)
        requires
            old(self).wf(),
        ensures
            final(self).wf(),
            final(self)@ == (WindowView {
                status: Status::UpdateSuccessful,
                rows: rows_after_upgrade(old(self)@.rows, old(self)@.policy),
                update_all_enabled: true,
                ..old(self)@
            }),
    {
        self.status = Status::UpdateSuccessful;
        self.update_all_enabled = true;
        self.settle_rows();
    }

    fn failed_update(&mut self)
        requires
            old(self).wf(),
        ensures
            final(self).wf(),
            final(self)@ == (WindowView {
                status: Status::UpdateFailed,
                rows: rows_after_upgrade(old(self)@.rows, old(self)@.policy),
                update_all_enabled: true,
                ..old(self)@
            }),
    {
        self.status = Status::UpdateFailed;
        self.update_all_enabled = true;
        self.settle_rows();
    }

    /// Takes the outcome of the upgrade of everything: the status tells success from failure,
    /// the upgrade control accepts clicks again, and the list is settled under the clear
    /// policy (emptied, by default).
    pub fn finish_update_all(&mut self, outcome: &Outcome)
        requires
            old(self).wf(),
        ensures
            final(self).wf(),
            final(self)@ == (WindowView {
                status: if outcome.is_success() {
                    Status::UpdateSuccessful
                } else {
                    Status::UpdateFailed
                },
                rows: rows_after_upgrade(old(self)@.rows, old(self)@.policy),
                update_all_enabled: true,
                ..old(self)@
            }),
    {
        if outcome.succeeded() {
            self.success_update();
        } else {
            self.failed_update();
        }
    }
}

} // verus!
