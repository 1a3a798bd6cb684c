//! One pending update on screen: its package, the version on offer, and the control that
//! installs it.
use vstd::prelude::*;
use vstd::string::StringExecFns;

use crate::job::{Job, UpdateManager, elevate_program, install_args};

verus! {

broadcast use vstd::string::group_string_axioms;

#[derive(PartialEq, Eq, Structural, Clone, Copy, Debug)]
pub enum CandidateState {
    Idle,
    Installing,
    Failed,
}

/// Names a row for as long as it exists: the scan that produced it and its place in that scan.
#[derive(PartialEq, Eq, Structural, Clone, Copy, Debug)]
pub struct RowId {
    pub generation: u64,
    pub index: u64,
}

pub struct UpdateRow {
    id: RowId,
    package: String,
    version: String,
    state: CandidateState,
    enabled: bool,
}

pub struct RowView {
    pub id: RowId,
    pub package: Seq<char>,
    pub version: Seq<char>,
    pub state: CandidateState,
    /// Whether the row's install control accepts clicks.
    pub enabled: bool,
}

impl View for UpdateRow {
    type V = RowView;

    closed spec fn view(&self) -> RowView {
        RowView {
            id: self.id,
            package: self.package@,
            version: self.version@,
            state: self.state,
            enabled: self.enabled,
        }
    }
}

/// The text beside the control: the package and its version, or, after a failed install, the
/// package and a pointer to the log.
pub open spec fn row_label(r: RowView) -> Seq<char> {
    if r.state == CandidateState::Failed {
        r.package + " - Error, read the log"@
    } else {
        r.package + " - "@ + r.version
    }
}

/// The caption of the install control.
pub open spec fn button_caption(state: CandidateState) -> Seq<char> {
    if state == CandidateState::Installing {
        "Updating..."@
    } else {
        "Update"@
    }
}

impl UpdateRow {
    /// A row for a freshly found update: idle, with its control enabled.
    pub fn new(id: RowId, package: String, version: String) -> (r: UpdateRow)
        ensures
            r@ == (RowView {
                id,
                package: package@,
                version: version@,
                state: CandidateState::Idle,
                enabled: true,
            }),
    {
        UpdateRow { id, package, version, state: CandidateState::Idle, enabled: true }
    }

    pub fn id(&self) -> (r: RowId)
        ensures
            r == self@.id,
    {
        self.id
    }

    pub fn package(&self) -> (r: &str)
        ensures
            r@ == self@.package,
    {
        self.package.as_str()
    }

    pub fn version(&self) -> (r: &str)
        ensures
            r@ == self@.version,
    {
        self.version.as_str()
    }

    pub fn state(&self) -> (r: CandidateState)
        ensures
            r == self@.state,
    {
        self.state
    }

    pub fn is_enabled(&self) -> (r: bool)
        ensures
            r == self@.enabled,
    {
        self.enabled
    }

    pub fn label(&self) -> (r: String)
        ensures
            r@ == row_label(self@),
    {
        if self.state == CandidateState::Failed {
            self.package.clone().concat(" - Error, read the log")
        } else {
            self.package.clone().concat(" - ").concat(self.version.as_str())
        }
    }

    pub fn button_label(&self) -> (r: &'static str)
        ensures
            r@ == button_caption(self@.state),
    {
        if self.state == CandidateState::Installing {
            "Updating..."
        } else {
            "Update"
        }
    }

    /// Starts installing: the row is installing, its control disabled, and the job that
    /// installs its package is handed back to be run.
    pub fn begin_install(&mut self) -> (j: Job)
        ensures
            final(self)@ == (RowView {
                state: CandidateState::Installing,
                enabled: false,
                ..old(self)@
            }),
            j@.program == elevate_program(),
            j@.args == install_args(old(self)@.package),
    {
        self.state = CandidateState::Installing;
        self.enabled = false;
        UpdateManager::install_package(self.package.as_str())
    }

    /// Records a failed install: the row has failed and its control accepts a retry.
    pub fn mark_failed(&mut self)
        ensures
            final(self)@ == (RowView { state: CandidateState::Failed, enabled: true, ..old(self)@ }),
    {
        self.state = CandidateState::Failed;
        self.enabled = true;
    }

    pub fn set_enabled(&mut self, enabled: bool)
        ensures
            final(self)@ == (RowView { enabled, ..old(self)@ }),
    {
        self.enabled = enabled;
    }
}

} // verus!
