use nbe::loop_cache::{
    plan, texture_slot, CacheBudget, CachePlan, CachePolicy, CacheTextureFormat, LoopSpec,
    DEFAULT_PER_LOOP_MIB, DEFAULT_TOTAL_LOOP_MIB,
};

fn spec_1080p(period: u32) -> LoopSpec {
    LoopSpec {
        width: 1920,
        height: 1080,
        period_frames: period,
        has_alpha: false,
        yuv_sampling: true,
        gop_frames: 30,
        declared_format: None,
    }
}

fn frame_cost_mib(p: &CachePlan) -> f64 {
    p.frame_cost_half_bytes as f64 / 2.0 / (1024.0 * 1024.0)
}

fn budget(per_loop_mib: u32, total_mib: u32, ws: Option<u32>) -> CacheBudget {
    CacheBudget { per_loop_mib, total_mib, recommended_working_set_mib: ws }
}

#[test]
fn frame_cost_follows_the_selected_format() {
    let p = plan(spec_1080p(100), budget(1024, 4096, None));
    assert_eq!(p.selected_texture_format, CacheTextureFormat::Nv12);
    assert!((frame_cost_mib(&p) - 2.9663).abs() < 0.001);
}

#[test]
fn alpha_selects_an_alpha_format_and_costs_more() {
    let mut spec = spec_1080p(10);
    spec.has_alpha = true;
    let p = plan(spec, budget(1024, 4096, None));
    assert_eq!(p.selected_texture_format, CacheTextureFormat::Nv12Alpha);
    assert!(frame_cost_mib(&p) > 4.9 && frame_cost_mib(&p) < 5.0);
}

#[test]
fn a_declared_format_overrides_the_derived_one() {
    let mut spec = spec_1080p(200);
    spec.declared_format = Some(CacheTextureFormat::Bc7);
    let p = plan(spec, budget(512, 512, None));
    assert_eq!(p.selected_texture_format, CacheTextureFormat::Bc7);
    assert!((frame_cost_mib(&p) - 1.9775).abs() < 0.001);
    assert_eq!(p.max_frames_by_budget, 258);
    assert_eq!(p.cache_policy_selected, CachePolicy::Vram);

    let derived = plan(spec_1080p(200), budget(512, 512, None));
    assert_eq!(derived.cache_policy_selected, CachePolicy::Streaming);
}

#[test]
fn the_declared_format_names_come_from_the_schema() {
    assert_eq!(CacheTextureFormat::from_declared("bc7"), Some(CacheTextureFormat::Bc7));
    assert_eq!(
        CacheTextureFormat::from_declared("nv12Alpha"),
        Some(CacheTextureFormat::Nv12Alpha)
    );
    assert_eq!(CacheTextureFormat::from_declared("auto"), None);
}

#[test]
fn a_loop_that_fits_is_vram_resident() {
    let p = plan(spec_1080p(100), budget(1024, 4096, None));
    assert_eq!(p.cache_policy_selected, CachePolicy::Vram);
    assert!(p.vram_resident);
    assert_eq!(p.max_frames_by_budget, 345);
}

#[test]
fn a_loop_that_does_not_fit_streams_with_the_mandated_read_ahead() {
    let p = plan(spec_1080p(5000), budget(1024, 4096, None));
    assert_eq!(p.cache_policy_selected, CachePolicy::Streaming);
    assert!(!p.vram_resident);
    assert_eq!(p.read_ahead_frames, 60);
}

#[test]
fn the_apple_unified_memory_clamp_lowers_the_budget() {
    let unclamped = plan(spec_1080p(100), budget(1024, 4096, None));
    let clamped = plan(spec_1080p(100), budget(1024, 4096, Some(2048)));
    assert_eq!(clamped.effective_budget_mib, 512);
    assert!(clamped.max_frames_by_budget < unclamped.max_frames_by_budget);
}

#[test]
fn the_ring_slot_is_a_modulo_with_no_wrap_special_case() {
    let period = 10;
    for i in 0..40u64 {
        assert_eq!(texture_slot(i, period), Some((i % 10) as usize));
    }
    assert_eq!(texture_slot(5, 0), None);
}

#[test]
fn a_plan_says_why_it_was_made() {
    let fits = plan(spec_1080p(100), budget(1024, 4096, None));
    assert!(fits.reason.contains("100"));
    let streams = plan(spec_1080p(5000), budget(1024, 4096, None));
    assert!(streams.reason.contains("5000"));
}

#[test]
fn a_budget_is_the_declared_one_or_the_default() {
    assert_eq!((DEFAULT_PER_LOOP_MIB, DEFAULT_TOTAL_LOOP_MIB), (256, 512));
    let undeclared = CacheBudget::from_manifest(None, None);
    assert_eq!((undeclared.per_loop_mib, undeclared.total_mib), (256, 512));
    assert_eq!(CacheBudget::from_manifest(Some(64), None).effective_mib(), 64);
    assert_eq!(CacheBudget::from_manifest(Some(4096), None).effective_mib(), 512);
    assert_eq!(CacheBudget::from_manifest(None, Some(400)).effective_mib(), 100);
}
