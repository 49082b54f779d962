//! The dispatcher between the surrounding shell and the engine: it applies
//! the messages of a rename run to the state and says what the shell must do.

use vstd::prelude::*;
use crate::rename::{done_status, done_status_text, on_finished, on_progress, tick};
use crate::state::AppState;

verus! {

/// A message to the controller.
pub enum ControllerEvent {
    /// The preview is to be recomputed.
    PreviewRequest,
    /// A rename run has completed this many renames.
    RenamingProgress(usize),
    /// A rename run has ended with these counts.
    RenamingDone { succeeded: usize, failed: usize },
}

/// What the shell must do after an event.
pub enum ControllerAction {
    /// Rescan the directory and recompute the preview.
    RefreshPreview,
    /// Redraw the progress.
    Repaint,
    /// Recompute the preview and show the final message.
    Finished(String),
}

/// Routes events to the state.
pub struct AppController;

impl AppController {
    pub fn event(&mut self, data: &mut AppState, event: ControllerEvent) -> (r: ControllerAction)
        ensures
            match event {
                ControllerEvent::PreviewRequest => {
                    &&& r is RefreshPreview
                    &&& *final(data) == *old(data)
                },
                ControllerEvent::RenamingProgress(n) => {
                    &&& r is Repaint
                    &&& final(data).conversion_done == if old(data).conversion_in_progress {
                        tick(
                            old(data).conversion_done as nat,
                            old(data).conversion_total as nat,
                            n as nat,
                        )
                    } else {
                        old(data).conversion_done as nat
                    }
                    &&& final(data).conversion_in_progress == old(data).conversion_in_progress
                    &&& final(data).conversion_total == old(data).conversion_total
                    &&& final(data).status_message == old(data).status_message
                    &&& final(data).files == old(data).files
                    &&& final(data).preview_files == old(data).preview_files
                    &&& final(data).inputs() == old(data).inputs()
                },
                ControllerEvent::RenamingDone { succeeded, failed } => {
                    &&& r matches ControllerAction::Finished(msg) && msg@ == done_status(
                        succeeded as nat,
                        failed as nat,
                    )
                    &&& final(data).status_message@ == done_status(succeeded as nat, failed as nat)
                    &&& !final(data).conversion_in_progress
                    &&& final(data).conversion_done == old(data).conversion_done
                    &&& final(data).conversion_total == old(data).conversion_total
                    &&& final(data).files == old(data).files
                    &&& final(data).preview_files == old(data).preview_files
                    &&& final(data).inputs() == old(data).inputs()
                },
            },
    {
        match event {
            ControllerEvent::PreviewRequest => ControllerAction::RefreshPreview,
            ControllerEvent::RenamingProgress(n) => {
                on_progress(data, n);
                ControllerAction::Repaint
            },
            ControllerEvent::RenamingDone { succeeded, failed } => {
                on_finished(data, succeeded, failed);
                ControllerAction::Finished(done_status_text(succeeded, failed))
            },
        }
    }

    /// Whether a change from `old_data` to `data` calls for a new preview:
    /// the case-sensitivity or the recursion flag changed.
    pub fn update(&self, old_data: &AppState, data: &AppState) -> (r: bool)
        ensures
            r == (old_data.case_sensitive != data.case_sensitive
                || old_data.include_subdirectories != data.include_subdirectories),
    {
        old_data.case_sensitive != data.case_sensitive || old_data.include_subdirectories
            != data.include_subdirectories
    }
}

} // verus!
