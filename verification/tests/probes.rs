use arlen_comp::number::NumberError;
use arlen_comp::probes::{
    ghost_binding, layer_size, lock_probe_binding, parse_mode, probe_seconds, wallpaper_binding,
    wants_unmap, FrameCounter, GhostGlobal, LockObservations, LockProbeGlobal, Mode,
    WallpaperGlobal,
};

#[test]
fn lock_probe_modes() {
    assert_eq!(parse_mode(None), Some(Mode::NoSurface));
    assert_eq!(parse_mode(Some("no-surface")), Some(Mode::NoSurface));
    assert_eq!(parse_mode(Some("surface")), Some(Mode::Surface));
    assert_eq!(parse_mode(Some("crash")), Some(Mode::Crash));
    assert_eq!(parse_mode(Some("unlock")), Some(Mode::Unlock));
    assert_eq!(parse_mode(Some("Unlock")), None);
}

#[test]
fn lock_probe_binds_every_output() {
    assert_eq!(lock_probe_binding("wl_compositor", 6), Some((LockProbeGlobal::Compositor, 4)));
    assert_eq!(lock_probe_binding("wl_shm", 2), Some((LockProbeGlobal::Shm, 1)));
    assert_eq!(lock_probe_binding("wl_output", 2), Some((LockProbeGlobal::Output, 2)));
    assert_eq!(
        lock_probe_binding("ext_session_lock_manager_v1", 3),
        Some((LockProbeGlobal::LockManager, 1))
    );
    assert_eq!(lock_probe_binding("wl_seat", 3), None);
}

#[test]
fn the_lock_succeeds_when_locked_arrives() {
    let mut o: LockObservations<u64> = LockObservations::new();
    assert!(!o.lock_succeeded());
    o.on_configure(0, 1920, 1080);
    o.on_configure(1, 800, 600);
    o.on_configure(0, 1280, 720);
    assert_eq!(o.configured_size(0), Some((1280, 720)));
    assert_eq!(o.configured_size(2), None);
    o.on_painted();
    o.on_frame_done();
    o.on_locked(17);
    assert!(o.lock_succeeded());
    assert_eq!(*o.locked_at(), Some(17));
    assert_eq!((o.painted(), o.presented()), (1, 1));
    assert!(!o.finished());
    o.on_finished();
    assert!(o.finished());
}

#[test]
fn wallpaper_probe_arguments_and_sizes() {
    assert_eq!(probe_seconds(None), Ok(10));
    assert_eq!(probe_seconds(Some("3")), Ok(3));
    assert_eq!(probe_seconds(Some(" 3")), Err(NumberError::InvalidDigit));
    assert_eq!(probe_seconds(Some("")), Err(NumberError::Empty));
    assert_eq!(layer_size(0, 0), (1, 1));
    assert_eq!(layer_size(2560, 1440), (2560, 1440));
}

#[test]
fn wallpaper_probe_bindings() {
    assert_eq!(wallpaper_binding("zwlr_layer_shell_v1", 5, false), Some((WallpaperGlobal::LayerShell, 4)));
    assert_eq!(wallpaper_binding("wl_output", 4, false), Some((WallpaperGlobal::Output, 3)));
    assert_eq!(wallpaper_binding("wl_output", 4, true), None);
    assert_eq!(wallpaper_binding("wl_compositor", 3, false), Some((WallpaperGlobal::Compositor, 3)));
    assert_eq!(wallpaper_binding("wl_shm", 3, false), Some((WallpaperGlobal::Shm, 1)));
}

#[test]
fn frame_counts_per_window_and_in_total() {
    let mut c = FrameCounter::new();
    c.on_frame();
    c.on_frame();
    assert_eq!(c.take_rate(), 2);
    c.on_frame();
    assert_eq!(c.take_rate(), 1);
    assert_eq!(c.take_rate(), 0);
    assert_eq!(c.total(), 3);
}

#[test]
fn ghost_reproducer_choices() {
    assert_eq!(ghost_binding("xdg_wm_base", 6), Some((GhostGlobal::WmBase, 2)));
    assert_eq!(ghost_binding("wl_compositor", 6), Some((GhostGlobal::Compositor, 4)));
    assert_eq!(ghost_binding("wl_output", 6), None);
    assert!(wants_unmap(Some("unmap")));
    assert!(!wants_unmap(Some("shrink")));
    assert!(!wants_unmap(None));
}
