//! Decisions of the conformance probes: the session-lock probe, the
//! wallpaper frame-rate probe and the stale-frame ghost reproducer.
//!
//! Each probe is a small Wayland client; what it binds from the registry,
//! how it reads its arguments, and what it concludes from the events it
//! observed are decided here.

use std::collections::HashMap;

use vstd::prelude::*;

use crate::number::{parse_decimal, parse_unsigned, NumberError};
use crate::text::{chars_of, min_version, str_eq};

verus! {

broadcast use vstd::std_specs::hash::group_hash_axioms;

/// How the session-lock probe behaves.
#[derive(Debug, Clone, Copy, PartialEq, Eq, Structural)]
pub enum Mode {
    /// Lock, then never present anything: `locked` must not arrive.
    NoSurface,
    /// Lock and paint every output, then hold.
    Surface,
    /// Lock, paint, then die without unlocking.
    Crash,
    /// Lock, paint, then unlock cleanly.
    Unlock,
}

/// The mode named by the probe's first argument: none or `no-surface`,
/// `surface`, `crash`, `unlock`; `None` for any other word.
pub open spec fn mode_of(arg: Option<Seq<char>>) -> Option<Mode> {
    match arg {
        None => Some(Mode::NoSurface),
        Some(a) => if a == "no-surface"@ {
            Some(Mode::NoSurface)
        } else if a == "surface"@ {
            Some(Mode::Surface)
        } else if a == "crash"@ {
            Some(Mode::Crash)
        } else if a == "unlock"@ {
            Some(Mode::Unlock)
        } else {
            None
        },
    }
}

/// The view of an optional string argument.
pub open spec fn arg_view(arg: Option<&str>) -> Option<Seq<char>> {
    match arg {
        Some(a) => Some(a@),
        None => None,
    }
}

/// Read the session-lock probe's mode argument.
pub fn parse_mode(arg: Option<&str>) -> (m: Option<Mode>)
    ensures
        m == mode_of(arg_view(arg)),
{
    match arg {
        None => Some(Mode::NoSurface),
        Some(a) => if str_eq(a, "no-surface") {
            Some(Mode::NoSurface)
        } else if str_eq(a, "surface") {
            Some(Mode::Surface)
        } else if str_eq(a, "crash") {
            Some(Mode::Crash)
        } else if str_eq(a, "unlock") {
            Some(Mode::Unlock)
        } else {
            None
        },
    }
}

/// A global the session-lock probe binds.
#[derive(Debug, Clone, Copy, PartialEq, Eq, Structural)]
pub enum LockProbeGlobal {
    /// `wl_compositor`, up to version 4.
    Compositor,
    /// `wl_shm`, version 1.
    Shm,
    /// Every `wl_output`, up to version 3.
    Output,
    /// `ext_session_lock_manager_v1`, version 1.
    LockManager,
}

/// Which registry global the session-lock probe binds, and at which version.
pub open spec fn lock_probe_binding_of(interface: Seq<char>, version: u32) -> Option<(LockProbeGlobal, u32)> {
    if interface == "wl_compositor"@ {
        Some((LockProbeGlobal::Compositor, min_version(version, 4)))
    } else if interface == "wl_shm"@ {
        Some((LockProbeGlobal::Shm, min_version(version, 1)))
    } else if interface == "wl_output"@ {
        Some((LockProbeGlobal::Output, min_version(version, 3)))
    } else if interface == "ext_session_lock_manager_v1"@ {
        Some((LockProbeGlobal::LockManager, 1))
    } else {
        None
    }
}

/// Decide a registry `global` event of the session-lock probe.
pub fn lock_probe_binding(interface: &str, version: u32) -> (b: Option<(LockProbeGlobal, u32)>)
    ensures
        b == lock_probe_binding_of(interface@, version),
{
    if str_eq(interface, "wl_compositor") {
        Some((LockProbeGlobal::Compositor, version.min(4)))
    } else if str_eq(interface, "wl_shm") {
        Some((LockProbeGlobal::Shm, version.min(1)))
    } else if str_eq(interface, "wl_output") {
        Some((LockProbeGlobal::Output, version.min(3)))
    } else if str_eq(interface, "ext_session_lock_manager_v1") {
        Some((LockProbeGlobal::LockManager, 1))
    } else {
        None
    }
}

/// What the session-lock probe has observed. `T` is the probe's clock
/// reading of when `locked` arrived.
pub struct LockObservations<T> {
    presented: usize,
    painted: usize,
    locked_at: Option<T>,
    finished: bool,
    configured: HashMap<usize, (u32, u32)>,
}

/// The abstract value of [`LockObservations`].
pub struct LockObservationsView<T> {
    /// Lock surfaces whose frame callback fired.
    pub presented: nat,
    /// Lock surfaces the probe painted.
    pub painted: nat,
    /// When `locked` arrived, if it did.
    pub locked_at: Option<T>,
    /// Whether the compositor refused or revoked the lock.
    pub finished: bool,
    /// The size the compositor demanded for each lock surface, by output
    /// index.
    pub configured: Map<usize, (u32, u32)>,
}

impl<T> View for LockObservations<T> {
    type V = LockObservationsView<T>;

    closed spec fn view(&self) -> LockObservationsView<T> {
        LockObservationsView {
            presented: self.presented as nat,
            painted: self.painted as nat,
            locked_at: self.locked_at,
            finished: self.finished,
            configured: self.configured@,
        }
    }
}

impl<T> LockObservations<T> {
    /// Nothing observed yet.
    pub fn new() -> (o: Self)
        ensures
            o@.presented == 0,
            o@.painted == 0,
            o@.locked_at is None,
            !o@.finished,
            o@.configured == Map::<usize, (u32, u32)>::empty(),
    {
        LockObservations {
            presented: 0,
            painted: 0,
            locked_at: None,
            finished: false,
            configured: HashMap::new(),
        }
    }

    /// The `locked` event arrived at `at`.
    pub fn on_locked(&mut self, at: T)
        ensures
            final(self)@ == (LockObservationsView { locked_at: Some(at), ..old(self)@ }),
    {
        self.locked_at = Some(at);
    }

    /// The `finished` event arrived: the compositor refused or revoked the
    /// lock.
    pub fn on_finished(&mut self)
        ensures
            final(self)@ == (LockObservationsView { finished: true, ..old(self)@ }),
    {
        self.finished = true;
    }

    /// A lock surface's `configure` arrived with the size the compositor
    /// demands for it.
    pub fn on_configure(&mut self, index: usize, width: u32, height: u32)
        ensures
            final(self)@ == (LockObservationsView {
                configured: old(self)@.configured.insert(index, (width, height)),
                ..old(self)@
            }),
    {
        self.configured.insert(index, (width, height));
    }

    /// A lock surface's frame callback fired.
    pub fn on_frame_done(&mut self)
        requires
            old(self)@.presented < usize::MAX,
        ensures
            final(self)@ == (LockObservationsView {
                presented: old(self)@.presented + 1,
                ..old(self)@
            }),
    {
        self.presented = self.presented + 1;
    }

    /// The probe painted one more lock surface.
    pub fn on_painted(&mut self)
        requires
            old(self)@.painted < usize::MAX,
        ensures
            final(self)@ == (LockObservationsView { painted: old(self)@.painted + 1, ..old(self)@ }),
    {
        self.painted = self.painted + 1;
    }

    /// Frame callbacks seen so far.
    pub fn presented(&self) -> (n: usize)
        ensures
            n == self@.presented,
    {
        self.presented
    }

    /// Lock surfaces painted so far.
    pub fn painted(&self) -> (n: usize)
        ensures
            n == self@.painted,
    {
        self.painted
    }

    /// Whether the compositor refused or revoked the lock.
    pub fn finished(&self) -> (b: bool)
        ensures
            b == self@.finished,
    {
        self.finished
    }

    /// When `locked` arrived, if it did.
    pub fn locked_at(&self) -> (at: &Option<T>)
        ensures
            *at == self@.locked_at,
    {
        &self.locked_at
    }

    /// The size demanded for the lock surface of output `index`, if its
    /// configure arrived.
    pub fn configured_size(&self, index: usize) -> (size: Option<(u32, u32)>)
        ensures
            size == (if self@.configured.contains_key(index) {
                Some(self@.configured[index])
            } else {
                None
            }),
    {
        match self.configured.get(&index) {
            Some(s) => Some(*s),
            None => None,
        }
    }

    /// Whether the lock succeeded: exactly when `locked` arrived.
    /// An output that never presents a frame would hold it back for the rest
    /// of the session, and that is the failure this reports.
    pub fn lock_succeeded(&self) -> (ok: bool)
        ensures
            ok == self@.locked_at is Some,
    {
        self.locked_at.is_some()
    }
}

/// A global the wallpaper probe binds.
#[derive(Debug, Clone, Copy, PartialEq, Eq, Structural)]
pub enum WallpaperGlobal {
    /// `wl_compositor`, up to version 4.
    Compositor,
    /// `wl_shm`, version 1.
    Shm,
    /// `zwlr_layer_shell_v1`, up to version 4.
    LayerShell,
    /// The first `wl_output`, up to version 3.
    Output,
}

/// Which registry global the wallpaper probe binds, and at which version.
pub open spec fn wallpaper_binding_of(interface: Seq<char>, version: u32, output_bound: bool) -> Option<(WallpaperGlobal, u32)> {
    if interface == "wl_compositor"@ {
        Some((WallpaperGlobal::Compositor, min_version(version, 4)))
    } else if interface == "wl_shm"@ {
        Some((WallpaperGlobal::Shm, min_version(version, 1)))
    } else if interface == "zwlr_layer_shell_v1"@ {
        Some((WallpaperGlobal::LayerShell, min_version(version, 4)))
    } else if interface == "wl_output"@ && !output_bound {
        Some((WallpaperGlobal::Output, min_version(version, 3)))
    } else {
        None
    }
}

/// Decide a registry `global` event of the wallpaper probe.
pub fn wallpaper_binding(interface: &str, version: u32, output_bound: bool) -> (b: Option<(WallpaperGlobal, u32)>)
    ensures
        b == wallpaper_binding_of(interface@, version, output_bound),
{
    if str_eq(interface, "wl_compositor") {
        Some((WallpaperGlobal::Compositor, version.min(4)))
    } else if str_eq(interface, "wl_shm") {
        Some((WallpaperGlobal::Shm, version.min(1)))
    } else if str_eq(interface, "zwlr_layer_shell_v1") {
        Some((WallpaperGlobal::LayerShell, version.min(4)))
    } else if str_eq(interface, "wl_output") && !output_bound {
        Some((WallpaperGlobal::Output, version.min(3)))
    } else {
        None
    }
}

/// The size a background layer surface draws at: the configured size, each
/// dimension at least 1.
pub fn layer_size(width: u32, height: u32) -> (size: (u32, u32))
    ensures
        size.0 == (if width < 1 { 1 } else { width }),
        size.1 == (if height < 1 { 1 } else { height }),
{
    (width.max(1), height.max(1))
}

/// How many seconds the wallpaper probe runs: its first argument, `10` when
/// there is none.
pub fn probe_seconds(arg: Option<&str>) -> (r: Result<u64, NumberError>)
    ensures
        match (r, parse_unsigned(
            match arg {
                Some(a) => a@,
                None => seq!['1', '0'],
            },
            u64::MAX as int,
        )) {
            (Ok(v), Ok(w)) => v == w,
            (Err(e), Err(f)) => e == f,
            _ => false,
        },
{
    let chars = match arg {
        Some(a) => chars_of(a),
        None => {
            let ten = vec!['1', '0'];
            assert(ten@ =~= seq!['1', '0']);
            ten
        },
    };
    parse_decimal(&chars, 0xFFFF_FFFF_FFFF_FFFF)
}

/// Frame callbacks granted to the wallpaper probe: since the last rate line,
/// and in total.
pub struct FrameCounter {
    frames: u32,
    total: u32,
}

impl FrameCounter {
    /// The frames of the current rate window are among the total.
    #[verifier::type_invariant]
    spec fn window_within_total(self) -> bool {
        self.frames <= self.total
    }
}

impl View for FrameCounter {
    /// (granted since the last rate line, granted in total)
    type V = (u32, u32);

    closed spec fn view(&self) -> (u32, u32) {
        (self.frames, self.total)
    }
}

impl FrameCounter {
    /// No frames granted yet.
    pub fn new() -> (c: Self)
        ensures
            c@ == (0u32, 0u32),
    {
        FrameCounter { frames: 0, total: 0 }
    }

    /// A frame callback was granted: one more in the window and in total.
    pub fn on_frame(&mut self)
        requires
            old(self)@.1 < u32::MAX,
        ensures
            final(self)@ == ((old(self)@.0 + 1) as u32, (old(self)@.1 + 1) as u32),
    {
        proof {
            use_type_invariant(&*self);
        }
        *self = FrameCounter { frames: self.frames + 1, total: self.total + 1 };
    }

    /// End a rate window: the frames granted in it, and a fresh window.
    pub fn take_rate(&mut self) -> (n: u32)
        ensures
            n == old(self)@.0,
            final(self)@ == (0u32, old(self)@.1),
    {
        let n = self.frames;
        *self = FrameCounter { frames: 0, total: self.total };
        n
    }

    /// Frames granted in total.
    pub fn total(&self) -> (n: u32)
        ensures
            n == self@.1,
    {
        self.total
    }
}

/// A global the ghost reproducer binds.
#[derive(Debug, Clone, Copy, PartialEq, Eq, Structural)]
pub enum GhostGlobal {
    /// `wl_compositor`, up to version 4.
    Compositor,
    /// `wl_shm`, version 1.
    Shm,
    /// `xdg_wm_base`, up to version 2.
    WmBase,
}

/// Which registry global the ghost reproducer binds, and at which version.
pub open spec fn ghost_binding_of(interface: Seq<char>, version: u32) -> Option<(GhostGlobal, u32)> {
    if interface == "wl_compositor"@ {
        Some((GhostGlobal::Compositor, min_version(version, 4)))
    } else if interface == "wl_shm"@ {
        Some((GhostGlobal::Shm, min_version(version, 1)))
    } else if interface == "xdg_wm_base"@ {
        Some((GhostGlobal::WmBase, min_version(version, 2)))
    } else {
        None
    }
}

/// Decide a registry `global` event of the ghost reproducer.
pub fn ghost_binding(interface: &str, version: u32) -> (b: Option<(GhostGlobal, u32)>)
    ensures
        b == ghost_binding_of(interface@, version),
{
    if str_eq(interface, "wl_compositor") {
        Some((GhostGlobal::Compositor, version.min(4)))
    } else if str_eq(interface, "wl_shm") {
        Some((GhostGlobal::Shm, version.min(1)))
    } else if str_eq(interface, "xdg_wm_base") {
        Some((GhostGlobal::WmBase, version.min(2)))
    } else {
        None
    }
}

/// Whether the ghost reproducer unmaps its block rather than shrinking it:
/// its first argument is exactly `unmap`.
pub fn wants_unmap(arg: Option<&str>) -> (unmap: bool)
    ensures
        unmap == (arg_view(arg) == Some("unmap"@)),
{
    match arg {
        Some(a) => str_eq(a, "unmap"),
        None => false,
    }
}

/// Law: the session-lock probe's modes. No argument means `no-surface`;
/// each of the four mode words names its mode; any other word is refused.
pub proof fn law_lock_probe_modes(word: Seq<char>)
    ensures
        mode_of(None) == Some(Mode::NoSurface),
        mode_of(Some("no-surface"@)) == Some(Mode::NoSurface),
        mode_of(Some("surface"@)) == Some(Mode::Surface),
        mode_of(Some("crash"@)) == Some(Mode::Crash),
        mode_of(Some("unlock"@)) == Some(Mode::Unlock),
        word != "no-surface"@ && word != "surface"@ && word != "crash"@ && word != "unlock"@
            ==> mode_of(Some(word)) is None,
{
    reveal_strlit("no-surface");
    assert("no-surface"@.len() == 10);
    reveal_strlit("surface");
    assert("surface"@.len() == 7);
    reveal_strlit("crash");
    assert("crash"@.len() == 5);
    reveal_strlit("unlock");
    assert("unlock"@.len() == 6);
}

/// Law: the globals the session-lock probe binds: the compositor at most at
/// version 4, shm at version 1 at most, every output at most at version 3,
/// and the lock manager at version 1; nothing else.
pub proof fn law_lock_probe_bindings(interface: Seq<char>, version: u32)
    ensures
        lock_probe_binding_of("wl_compositor"@, version) == Some(
            (LockProbeGlobal::Compositor, if version < 4 { version } else { 4 }),
        ),
        lock_probe_binding_of("wl_shm"@, version) == Some(
            (LockProbeGlobal::Shm, if version < 1 { version } else { 1 }),
        ),
        lock_probe_binding_of("wl_output"@, version) == Some(
            (LockProbeGlobal::Output, if version < 3 { version } else { 3 }),
        ),
        lock_probe_binding_of("ext_session_lock_manager_v1"@, version) == Some(
            (LockProbeGlobal::LockManager, 1u32),
        ),
        interface != "wl_compositor"@ && interface != "wl_shm"@ && interface != "wl_output"@
            && interface != "ext_session_lock_manager_v1"@ ==> lock_probe_binding_of(
            interface,
            version,
        ) is None,
{
    reveal_strlit("wl_compositor");
    assert("wl_compositor"@.len() == 13);
    reveal_strlit("wl_shm");
    assert("wl_shm"@.len() == 6);
    reveal_strlit("wl_output");
    assert("wl_output"@.len() == 9);
    reveal_strlit("ext_session_lock_manager_v1");
    assert("ext_session_lock_manager_v1"@.len() == 27);
}

/// Law: the globals the wallpaper probe binds: the compositor and the layer
/// shell at most at version 4, shm at version 1 at most, and the first
/// output at most at version 3; a second output, and anything else, is not
/// bound.
pub proof fn law_wallpaper_bindings(interface: Seq<char>, version: u32, output_bound: bool)
    ensures
        wallpaper_binding_of("wl_compositor"@, version, output_bound) == Some(
            (WallpaperGlobal::Compositor, if version < 4 { version } else { 4 }),
        ),
        wallpaper_binding_of("wl_shm"@, version, output_bound) == Some(
            (WallpaperGlobal::Shm, if version < 1 { version } else { 1 }),
        ),
        wallpaper_binding_of("zwlr_layer_shell_v1"@, version, output_bound) == Some(
            (WallpaperGlobal::LayerShell, if version < 4 { version } else { 4 }),
        ),
        wallpaper_binding_of("wl_output"@, version, false) == Some(
            (WallpaperGlobal::Output, if version < 3 { version } else { 3 }),
        ),
        wallpaper_binding_of("wl_output"@, version, true) is None,
        interface != "wl_compositor"@ && interface != "wl_shm"@ && interface
            != "zwlr_layer_shell_v1"@ && interface != "wl_output"@ ==> wallpaper_binding_of(
            interface,
            version,
            output_bound,
        ) is None,
{
    reveal_strlit("wl_compositor");
    assert("wl_compositor"@.len() == 13);
    reveal_strlit("wl_shm");
    assert("wl_shm"@.len() == 6);
    reveal_strlit("zwlr_layer_shell_v1");
    assert("zwlr_layer_shell_v1"@.len() == 19);
    reveal_strlit("wl_output");
    assert("wl_output"@.len() == 9);
}

/// Law: the globals the ghost reproducer binds: the compositor at most at
/// version 4, shm at version 1 at most, and the xdg window manager base at
/// most at version 2; nothing else.
pub proof fn law_ghost_bindings(interface: Seq<char>, version: u32)
    ensures
        ghost_binding_of("wl_compositor"@, version) == Some(
            (GhostGlobal::Compositor, if version < 4 { version } else { 4 }),
        ),
        ghost_binding_of("wl_shm"@, version) == Some(
            (GhostGlobal::Shm, if version < 1 { version } else { 1 }),
        ),
        ghost_binding_of("xdg_wm_base"@, version) == Some(
            (GhostGlobal::WmBase, if version < 2 { version } else { 2 }),
        ),
        interface != "wl_compositor"@ && interface != "wl_shm"@ && interface != "xdg_wm_base"@
            ==> ghost_binding_of(interface, version) is None,
{
    reveal_strlit("wl_compositor");
    assert("wl_compositor"@.len() == 13);
    reveal_strlit("wl_shm");
    assert("wl_shm"@.len() == 6);
    reveal_strlit("xdg_wm_base");
    assert("xdg_wm_base"@.len() == 11);
}

} // verus!
