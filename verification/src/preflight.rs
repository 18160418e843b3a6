//! The preflight report: what a package was checked for, and whether it can
//! go on air.

use crate::json::Real;
use vstd::prelude::*;

verus! {

/// The report of a preflight run.
#[derive(Debug)]
pub struct PreflightReport {
    /// The package is of the required shape.
    pub manifest_valid: bool,
    /// Nothing was found.
    pub air_ready: bool,
    pub errors: Vec<String>,
    pub warnings: Vec<String>,
    pub assets: Vec<AssetReport>,
    pub loops: Vec<LoopReport>,
    pub scenes: Vec<SceneReport>,
    pub plugins: Vec<PluginReport>,
    pub contact_sheet: Option<String>,
    pub resources: ResourceReport,
}

/// What a package demands of the machine.
#[derive(Debug, Clone, Copy, PartialEq, Eq)]
pub struct ResourceReport {
    pub vram_demand_mib: u32,
    pub audio_demand_mib: u32,
    pub declared_house_rate: Option<u32>,
}

/// What was found of an asset.
#[derive(Debug)]
pub struct AssetReport {
    pub id: String,
    pub kind: Option<String>,
    pub exists: bool,
    pub sha256_ok: Option<bool>,
    pub decode_first_frame_ok: Option<bool>,
    pub decode_last_frame_ok: Option<bool>,
    pub cfr: Option<bool>,
    pub frame_rate: Option<Real>,
    pub width: Option<u32>,
    pub height: Option<u32>,
    pub duration_frames: Option<u32>,
    pub cadence_ok: Option<bool>,
    pub loudness: Option<LoudnessSummary>,
}

/// Measured loudness.
#[derive(Debug, Clone, Copy, PartialEq, Eq)]
pub struct LoudnessSummary {
    pub integrated_lufs: Option<Real>,
    pub true_peak_dbtp: Option<Real>,
}

/// What was decided of a loop.
#[derive(Debug)]
pub struct LoopReport {
    pub asset_id: String,
    pub period_frames: Option<u32>,
    pub seamless: Option<bool>,
    pub selected_texture_format: Option<String>,
    pub frame_cost_mib: Option<Real>,
    pub effective_budget_mib: Option<u32>,
    pub max_frames_by_budget: Option<u32>,
    pub cache_policy_selected: Option<String>,
    pub vram_resident: Option<bool>,
    pub reason: Option<String>,
}

/// What was found of a scene.
#[derive(Debug)]
pub struct SceneReport {
    pub scene_id: String,
    pub references_ok: bool,
    pub dag_ok: bool,
}

/// What was found of a plugin.
#[derive(Debug)]
pub struct PluginReport {
    pub plugin_id: String,
    pub sandbox_ok: bool,
}

impl PreflightReport {
    /// Settle whether the package can go on air: it can when there is neither
    /// an error nor a warning.
    pub fn finalize(&mut self)
        ensures
            *final(self) == (PreflightReport {
                air_ready: old(self).errors@.len() == 0 && old(self).warnings@.len() == 0,
                ..*old(self)
            }),
    {
        self.air_ready = self.errors.len() == 0 && self.warnings.len() == 0;
    }

    /// Add an error.
    pub fn push_error(&mut self, msg: String)
        ensures
            final(self).errors@ == old(self).errors@.push(msg),
            *final(self) == (PreflightReport { errors: final(self).errors, ..*old(self) }),
    {
        self.errors.push(msg);
    }

    /// Add a warning.
    pub fn push_warning(&mut self, msg: String)
        ensures
            final(self).warnings@ == old(self).warnings@.push(msg),
            *final(self) == (PreflightReport { warnings: final(self).warnings, ..*old(self) }),
    {
        self.warnings.push(msg);
    }
}

} // verus!
