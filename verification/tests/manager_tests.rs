//! Tests for the app registry, the deferred request slot, and the
//! reconciliation decisions.

use fri3d_runtime::host::HostState;
use fri3d_runtime::manager::AppRegistry;
use fri3d_runtime::manager::ManagerState;
use fri3d_runtime::manager::AppRequest;
use fri3d_runtime::manager::PendingAction;
use fri3d_runtime::manager::PendingSlot;
use fri3d_runtime::manager::resolve_request;
use fri3d_runtime::manager::rerender_decision;

#[test]
fn registry_assigns_dense_ids() {
    let mut reg = AppRegistry::new();
    assert!(reg.add_app("a.wasm"));
    assert!(reg.add_app("b.wasm"));
    assert_eq!(reg.lookup_path(1).map(|s| s.as_str()), Some("a.wasm"));
    assert_eq!(reg.lookup_path(2).map(|s| s.as_str()), Some("b.wasm"));
    assert!(reg.lookup_path(0).is_none());
    assert!(reg.lookup_path(3).is_none());
}

#[test]
fn launcher_path_is_stored() {
    let mut reg = AppRegistry::new();
    assert!(reg.launcher().is_none());
    reg.set_launcher_path("launcher.wasm");
    assert_eq!(reg.launcher().map(|s| s.as_str()), Some("launcher.wasm"));
}

#[test]
fn slot_take_reads_and_clears() {
    let mut slot = PendingSlot::new();
    assert_eq!(slot.take(), (AppRequest::Idle, 0));

    slot.write_start(3);
    assert_eq!(slot.take(), (AppRequest::StartApp, 3));
    assert_eq!(slot.take(), (AppRequest::Idle, 0));

    slot.write_exit();
    assert_eq!(slot.take(), (AppRequest::ExitToLauncher, 0));
}

#[test]
fn request_resolution_routes_launcher_and_apps() {
    assert_eq!(resolve_request(AppRequest::Idle, 0), PendingAction::Stay);
    assert_eq!(resolve_request(AppRequest::ExitToLauncher, 0), PendingAction::ShowLauncher);
    assert_eq!(resolve_request(AppRequest::StartApp, 0), PendingAction::ShowLauncher);
    assert_eq!(resolve_request(AppRequest::StartApp, 2), PendingAction::LaunchApp(2));
}

#[test]
fn reconciliation_runs_at_most_two_passes() {
    assert!(rerender_decision(1, true, false, true, false));
    assert!(rerender_decision(1, false, true, false, true));
    assert!(!rerender_decision(2, true, true, true, true));
    assert!(!rerender_decision(1, false, false, true, true));
    assert!(!rerender_decision(1, true, true, false, false));
}

#[test]
fn host_state_starts_with_a_cleared_canvas() {
    let host = HostState::new();
    assert!(host.canvas.buffer().iter().all(|&b| b == 0));
    assert_eq!(host.canvas.width(), 128);
}

#[test]
fn mode_state_tracks_launcher_and_errors() {
    let mut state = ManagerState::new();
    assert!(state.in_launcher());
    assert!(!state.module_loaded());
    assert!(state.should_draw_error_panel());
    assert!(state.last_error().is_none());

    // a failed launcher load records the error and draws the panel
    state.note_show_launcher(false, "Launcher path not set");
    assert!(state.should_draw_error_panel());
    assert_eq!(state.last_error().map(|e| e.as_str()), Some("Launcher path not set"));

    // a successful app launch enters app mode and keeps the old error
    state.note_launch(true, "");
    assert!(!state.in_launcher());
    assert!(state.module_loaded());
    assert!(!state.should_draw_error_panel());
    assert_eq!(state.last_error().map(|e| e.as_str()), Some("Launcher path not set"));

    // a failed launch keeps the mode, drops the module, records the error
    state.note_launch(false, "Invalid app id");
    assert!(!state.in_launcher());
    assert!(!state.module_loaded());
    assert_eq!(state.last_error().map(|e| e.as_str()), Some("Invalid app id"));

    state.note_show_launcher(true, "");
    assert!(state.in_launcher());
    assert!(state.module_loaded());

    state.note_unload();
    assert!(state.should_draw_error_panel());
}
