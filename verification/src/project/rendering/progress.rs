//! The stages of a render and the progress shared by the threads of a render.

use vstd::prelude::*;

verus! {

/// The stages a render goes through.
#[derive(Debug, Clone, Copy, PartialEq, Eq, Structural, Hash)]
pub enum RenderStage {
    /// Preparing to render.
    Preparing,
    /// Processing the assets.
    Processing,
    /// Rendering.
    Rendering,
    /// Post-processing the output.
    PostProcessing,
    /// The render is complete.
    Complete,
    /// The render is complete (another name for `Complete`).
    Completed,
    /// The render was cancelled.
    Cancelled,
}

/// The description of a render stage.
pub open spec fn stage_description(s: RenderStage) -> Seq<char> {
    match s {
        RenderStage::Preparing => "Preparing to render"@,
        RenderStage::Processing => "Processing assets"@,
        RenderStage::Rendering => "Rendering"@,
        RenderStage::PostProcessing => "Post-processing the rendered output"@,
        RenderStage::Complete => "Render complete"@,
        RenderStage::Completed => "Render completed"@,
        RenderStage::Cancelled => "Render cancelled"@,
    }
}

impl RenderStage {
    /// The description of the stage.
    pub fn description(&self) -> (s: &'static str)
        ensures
            s@ == stage_description(*self),
    {
        match self {
            RenderStage::Preparing => "Preparing to render",
            RenderStage::Processing => "Processing assets",
            RenderStage::Rendering => "Rendering",
            RenderStage::PostProcessing => "Post-processing the rendered output",
            RenderStage::Complete => "Render complete",
            RenderStage::Completed => "Render completed",
            RenderStage::Cancelled => "Render cancelled",
        }
    }
}

/// The progress of a render: its stage, whether it was cancelled, and how much
/// of how much work is done. The threads of a render share one behind a lock.
#[derive(Debug, Clone, Copy)]
pub struct SharedProgressTracker {
    stage: RenderStage,
    cancelled: bool,
    total: u64,
    progress: u64,
}

/// What a progress tracker holds.
pub struct ProgressView {
    pub stage: RenderStage,
    pub cancelled: bool,
    pub total: u64,
    pub progress: u64,
}

impl View for SharedProgressTracker {
    type V = ProgressView;

    closed spec fn view(&self) -> ProgressView {
        ProgressView { stage: self.stage, cancelled: self.cancelled, total: self.total, progress: self.progress }
    }
}

impl SharedProgressTracker {
    /// A tracker in the preparing stage, not cancelled, with no work.
    pub fn new() -> (p: Self)
        ensures
            p@ == (ProgressView { stage: RenderStage::Preparing, cancelled: false, total: 0, progress: 0 }),
    {
        SharedProgressTracker { stage: RenderStage::Preparing, cancelled: false, total: 0, progress: 0 }
    }

    /// Sets the amount of work in all.
    pub fn set_total(&mut self, total: u64)
        ensures
            final(self)@ == (ProgressView { total, ..old(self)@ }),
    {
        self.total = total;
    }

    /// Adds `delta` to the work done.
    pub fn increment_progress(&mut self, delta: u64)
        requires
            old(self)@.progress + delta <= u64::MAX,
        ensures
            final(self)@ == (ProgressView { progress: (old(self)@.progress + delta) as u64, ..old(self)@ }),
    {
        self.progress = self.progress + delta;
    }

    /// The work done.
    pub fn get_progress(&self) -> (n: u64)
        ensures
            n == self@.progress,
    {
        self.progress
    }

    /// The work in all.
    pub fn get_total(&self) -> (n: u64)
        ensures
            n == self@.total,
    {
        self.total
    }

    /// Moves to the stage `stage`.
    pub fn set_stage(&mut self, stage: RenderStage)
        ensures
            final(self)@ == (ProgressView { stage, ..old(self)@ }),
    {
        self.stage = stage;
    }

    /// The current stage.
    pub fn get_stage(&self) -> (s: RenderStage)
        ensures
            s == self@.stage,
    {
        self.stage
    }

    /// Cancels the render: it is marked cancelled and moves to the cancelled stage.
    pub fn cancel(&mut self)
        ensures
            final(self)@ == (ProgressView { cancelled: true, stage: RenderStage::Cancelled, ..old(self)@ }),
    {
        self.cancelled = true;
        self.stage = RenderStage::Cancelled;
    }

    /// Whether the render was cancelled.
    pub fn is_cancelled(&self) -> (b: bool)
        ensures
            b == self@.cancelled,
    {
        self.cancelled
    }
}

impl Default for SharedProgressTracker {
    fn default() -> (p: Self)
        ensures
            p@ == (ProgressView { stage: RenderStage::Preparing, cancelled: false, total: 0, progress: 0 }),
    {
        SharedProgressTracker::new()
    }
}

} // verus!
