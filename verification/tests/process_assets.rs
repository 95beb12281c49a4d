//! Crash detection, the supervision state machine and asset sync planning.
use launchcore::process::{CrashReportFile, Supervisor, SupervisorAction, SupervisorEvent,
    SupervisorState, is_ready_line, select_crash_report};
use launchcore::assets::{asset_object_rel_path, asset_object_url, asset_progress_events,
    plan_asset_downloads, scaled_permille};
use launchcore::launch::{library_progress_event, should_report_library_progress};

fn report(path: &str, age_secs: u64) -> CrashReportFile {
    CrashReportFile { path: path.to_string(), age_secs }
}

#[test]
fn fresh_crash_report_selected() {
    let files = vec![report("crash-reports/crash-2024.txt", 10)];
    assert_eq!(select_crash_report(&files), Some(0));
}

#[test]
fn stale_crash_report_ignored() {
    let files = vec![report("crash-reports/crash-2024.txt", 400)];
    assert_eq!(select_crash_report(&files), None);
}

#[test]
fn newest_fresh_report_wins() {
    let files = vec![
        report("crash-reports/a.txt", 200),
        report("crash-reports/b.txt", 10),
        report("crash-reports/c.txt", 50),
    ];
    assert_eq!(select_crash_report(&files), Some(1));
}

#[test]
fn non_txt_files_never_selected() {
    let files = vec![report("crash-reports/notes.log", 1)];
    assert_eq!(select_crash_report(&files), None);
}

#[test]
fn ready_markers_recognized() {
    assert!(is_ready_line("[10:00:00] [Render thread/INFO]: Backend library: LWJGL"));
    assert!(is_ready_line("Sound engine started"));
    assert!(!is_ready_line("[10:00:00] [Worker/INFO]: loading"));
}

#[test]
fn supervisor_happy_path() {
    let s = Supervisor::new();
    assert_eq!(s.state, SupervisorState::Building);
    let (s, a) = s.step(SupervisorEvent::SpawnOk);
    assert_eq!(s.state, SupervisorState::Spawned);
    assert!(a.is_empty());
    let (s, a) = s.step(SupervisorEvent::Line { ready_marker: false });
    assert_eq!(s.state, SupervisorState::Running);
    assert_eq!(a, vec![SupervisorAction::EmitLine]);
    let (s, a) = s.step(SupervisorEvent::Line { ready_marker: true });
    assert_eq!(a, vec![SupervisorAction::EmitLine, SupervisorAction::EmitReady]);
    // The ready signal goes out exactly once.
    let (s, a) = s.step(SupervisorEvent::Line { ready_marker: true });
    assert_eq!(a, vec![SupervisorAction::EmitLine]);
    let (s, a) = s.step(SupervisorEvent::ChildExited { success: true, crash_report: false });
    assert_eq!(s.state, SupervisorState::Exited);
    assert_eq!(a, vec![SupervisorAction::EmitExited]);
}

#[test]
fn supervisor_crash_emits_crash_then_exited() {
    let s = Supervisor::new();
    let (s, _) = s.step(SupervisorEvent::SpawnOk);
    let (s, a) = s.step(SupervisorEvent::ChildExited { success: false, crash_report: true });
    assert_eq!(s.state, SupervisorState::Exited);
    assert_eq!(a, vec![SupervisorAction::EmitCrash, SupervisorAction::EmitExited]);
}

#[test]
fn supervisor_nonzero_exit_without_report_only_exits() {
    let s = Supervisor::new();
    let (s, _) = s.step(SupervisorEvent::SpawnOk);
    let (_, a) = s.step(SupervisorEvent::ChildExited { success: false, crash_report: false });
    assert_eq!(a, vec![SupervisorAction::EmitExited]);
}

#[test]
fn supervisor_spawn_failure() {
    let s = Supervisor::new();
    let (s, a) = s.step(SupervisorEvent::SpawnError);
    assert_eq!(s.state, SupervisorState::SpawnFailed);
    assert!(a.is_empty());
}

#[test]
fn asset_paths_are_content_addressed() {
    let h = "00aabbcc";
    assert_eq!(asset_object_rel_path(h), "objects/00/00aabbcc");
    assert_eq!(
        asset_object_url(h),
        "https://resources.download.minecraft.net/00/00aabbcc"
    );
}

#[test]
fn fully_cached_sync_downloads_nothing_and_reports_once() {
    let present = vec![true; 120];
    let plan = plan_asset_downloads(&present);
    assert!(plan.is_empty());
    let events = asset_progress_events(120, plan.len() as u64);
    assert_eq!(events.len(), 1);
    assert_eq!(events[0].current, events[0].total);
    assert_eq!(events[0].permille, 200);
}

#[test]
fn only_missing_objects_downloaded() {
    let present = vec![true, false, true, false];
    assert_eq!(plan_asset_downloads(&present), vec![1, 3]);
}

#[test]
fn progress_reported_every_tenth_download_and_at_completion() {
    let events = asset_progress_events(120, 23);
    assert_eq!(events.len(), 4);
    assert_eq!(events[0].current, 10);
    assert_eq!(events[1].current, 20);
    assert_eq!(events[2].current, 23);
    assert_eq!(events[2].permille, 200);
    assert_eq!(events[3].current, 120);
    assert_eq!(events[3].total, 120);
}

#[test]
fn progress_scaling_into_bands() {
    assert_eq!(scaled_permille(0, 200, 60, 120), 100);
    assert_eq!(scaled_permille(200, 900, 5, 10), 550);
    assert_eq!(scaled_permille(200, 900, 0, 0), 900);
}

#[test]
fn library_progress_band() {
    let e = library_progress_event(5, 10);
    assert_eq!(e.permille, 550);
    assert_eq!(e.current, 5);
    assert!(should_report_library_progress(5));
    assert!(!should_report_library_progress(7));
}
