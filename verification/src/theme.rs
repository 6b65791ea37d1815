//! Lunaris theme selection and the compositor's published theme.
//!
//! The effective theme is composed from a bundled base (dark or light), an
//! optional user-installed theme, the user's `theme.toml` customisation and
//! the `appearance.toml` preferences. This module decides which base and
//! which overlays a composition uses, and holds the theme the compositor has
//! published: readers get the last published theme, or the bundled dark
//! theme before anything was published; a reload that fails to compose keeps
//! the last good theme rather than painting the default across every output.
//!
//! The theme value itself is produced by the theme crate; it is a type
//! parameter here.

use vstd::prelude::*;
use vstd::string::*;

use crate::text::{chars_of, same_chars};

verus! {

/// Which bundled theme file a composition starts from.
#[derive(Debug, Clone, Copy, PartialEq, Eq, Structural)]
pub enum BundledBase {
    /// The bundled `dark.toml`.
    Dark,
    /// The bundled `light.toml`.
    Light,
}

/// The theme selection of `appearance.toml`: `[theme].active` and
/// `[theme].mode`.
pub struct ThemeSelection {
    /// The id of the active theme, if set.
    pub active: Option<String>,
    /// The light/dark mode, if set.
    pub mode: Option<String>,
}

/// The id `dark`.
pub open spec fn dark_id() -> Seq<char> {
    seq!['d', 'a', 'r', 'k']
}

/// The id `light`.
pub open spec fn light_id() -> Seq<char> {
    seq!['l', 'i', 'g', 'h', 't']
}

/// The active theme id: `[theme].active`, else `[theme].mode`, else `dark`
/// (also when there is no appearance file at all).
pub open spec fn active_id_of(selection: Option<&ThemeSelection>) -> Seq<char> {
    match selection {
        Some(sel) => match sel.active {
            Some(a) => a@,
            None => match sel.mode {
                Some(m) => m@,
                None => dark_id(),
            },
        },
        None => dark_id(),
    }
}

/// The bundled base of a theme id: `light` starts from the light file; every
/// other id, bundled or user-installed, starts from the dark file.
pub open spec fn base_of(active_id: Seq<char>) -> BundledBase {
    if active_id == light_id() {
        BundledBase::Light
    } else {
        BundledBase::Dark
    }
}

/// Whether a theme id names a user-installed theme, whose file overlays the
/// base: every id but `dark` and `light`.
pub open spec fn is_user_installed(active_id: Seq<char>) -> bool {
    active_id != dark_id() && active_id != light_id()
}

/// The active theme id of an appearance selection (`None` when there is no
/// readable `appearance.toml`).
pub fn active_theme_id(selection: Option<&ThemeSelection>) -> (id: String)
    ensures
        id@ == active_id_of(selection),
{
    match selection {
        Some(sel) => match &sel.active {
            Some(a) => a.clone(),
            None => match &sel.mode {
                Some(m) => m.clone(),
                None => dark_string(),
            },
        },
        None => dark_string(),
    }
}

/// The string `dark`.
fn dark_string() -> (s: String)
    ensures
        s@ == dark_id(),
{
    let mut s = String::new();
    s.append("dark");
    proof {
        reveal_strlit("dark");
    }
    assert(s@ =~= dark_id());
    s
}

/// The bundled base a theme id starts from.
pub fn bundled_base(active_id: &str) -> (base: BundledBase)
    ensures
        base == base_of(active_id@),
{
    let id = chars_of(active_id);
    let light = vec!['l', 'i', 'g', 'h', 't'];
    assert(light@ =~= light_id());
    if same_chars(&id, &light) {
        BundledBase::Light
    } else {
        BundledBase::Dark
    }
}

/// Whether a theme id names a user-installed theme whose file must be read.
pub fn wants_user_theme(active_id: &str) -> (user: bool)
    ensures
        user == is_user_installed(active_id@),
{
    let id = chars_of(active_id);
    let dark = vec!['d', 'a', 'r', 'k'];
    let light = vec!['l', 'i', 'g', 'h', 't'];
    assert(dark@ =~= dark_id());
    assert(light@ =~= light_id());
    !same_chars(&id, &dark) && !same_chars(&id, &light)
}

/// What a composition starts from, decided by the appearance selection
/// before any file is read.
pub struct ThemePlan {
    /// The active theme id.
    pub active_id: String,
    /// The bundled file the composition starts from.
    pub base: BundledBase,
    /// Whether the user-installed theme file of `active_id` is read and laid
    /// over the base.
    pub user_theme_wanted: bool,
}

/// The plan of a composition for an appearance selection (`None` when there
/// is no readable `appearance.toml`): the active id, its bundled base, and
/// whether its user-installed file is wanted.
pub fn theme_plan(selection: Option<&ThemeSelection>) -> (plan: ThemePlan)
    ensures
        plan.active_id@ == active_id_of(selection),
        plan.base == base_of(active_id_of(selection)),
        plan.user_theme_wanted == is_user_installed(active_id_of(selection)),
{
    let active_id = active_theme_id(selection);
    let base = bundled_base(active_id.as_str());
    let user_theme_wanted = wants_user_theme(active_id.as_str());
    ThemePlan { active_id, base, user_theme_wanted }
}

/// What the theme crate's `resolve` is handed: the bundled base, the
/// user-installed theme's text and the customisation's text.
pub struct ResolveInputs {
    /// The bundled file to start from.
    pub base: BundledBase,
    /// The text of the user-installed theme, when one is wanted and was read.
    pub user_theme: Option<String>,
    /// The text of the user's `theme.toml`, when it was read.
    pub customization: Option<String>,
}

/// The inputs of a composition under `plan`, given what reading the
/// user-installed theme file gave (`None` when it is missing or unreadable,
/// which is never an error) and what reading `theme.toml` gave. The user
/// theme is passed on only when the plan wants it; a read made for a bundled
/// id is dropped.
pub fn resolve_inputs(
    plan: &ThemePlan,
    user_theme_read: Option<String>,
    customization: Option<String>,
) -> (inputs: ResolveInputs)
    ensures
        inputs.base == plan.base,
        inputs.user_theme == (if plan.user_theme_wanted {
            user_theme_read
        } else {
            None
        }),
        inputs.customization == customization,
{
    let user_theme = if plan.user_theme_wanted {
        user_theme_read
    } else {
        None
    };
    ResolveInputs { base: plan.base, user_theme, customization }
}

/// The prefix of a composition error.
pub open spec fn customization_error_prefix() -> Seq<char> {
    "customization parse error: "@
}

/// The error a failed composition reports: the theme crate's parse error,
/// prefixed with `customization parse error: `.
pub fn customization_error(err: &str) -> (msg: String)
    ensures
        msg@ == customization_error_prefix() + err@,
{
    let mut msg = String::new();
    msg.append("customization parse error: ");
    msg.append(err);
    msg
}

/// Whether `r` is what a composition reports for what the theme crate's
/// `resolve` returned: the composed theme itself, or its parse error
/// prefixed with `customization parse error: `.
pub open spec fn reports_resolved<T>(resolved: Result<T, String>, r: Result<T, String>) -> bool {
    match (resolved, r) {
        (Ok(t), Ok(u)) => u == t,
        (Err(e), Err(m)) => m@ == customization_error_prefix() + e@,
        _ => false,
    }
}

/// What a composition reports, given what the theme crate's `resolve`
/// returned (with appearance overrides applied to a success): the composed
/// theme, or the prefixed error.
pub fn report_resolved<T>(resolved: Result<T, String>) -> (r: Result<T, String>)
    ensures
        reports_resolved(resolved, r),
{
    match resolved {
        Ok(t) => Ok(t),
        Err(e) => Err(customization_error(e.as_str())),
    }
}

/// The inputs a composition hands to `resolve` for an appearance selection
/// (`None` when there is no readable `appearance.toml`), what reading the
/// active id's user-installed theme file gave, and what reading
/// `theme.toml` gave: the base of the active id; the user theme only for a
/// user-installed id; the customisation as read.
pub open spec fn composition_inputs(
    selection: Option<&ThemeSelection>,
    user_theme_read: Option<String>,
    customization: Option<String>,
) -> ResolveInputs {
    ResolveInputs {
        base: base_of(active_id_of(selection)),
        user_theme: if is_user_installed(active_id_of(selection)) {
            user_theme_read
        } else {
            None
        },
        customization,
    }
}

/// Compose the effective theme, reporting a parse failure instead of
/// falling back (the file watcher keeps the last good theme on `Err`).
/// `selection` is the appearance selection, `user_theme_read` what reading
/// the active id's user-installed theme file gave (`None` when it is
/// missing: never an error), `customization` what reading `theme.toml`
/// gave. `resolve` is the theme crate's `resolve` with the appearance
/// overrides applied to a success; it is handed exactly the inputs of
/// [`composition_inputs`], and what it returns is reported as
/// [`reports_resolved`] says.
pub fn try_recompose_effective_theme<T, F: Fn(&ResolveInputs) -> Result<T, String>>(
    selection: Option<&ThemeSelection>,
    user_theme_read: Option<String>,
    customization: Option<String>,
    resolve: F,
) -> (r: Result<T, String>)
    requires
        forall|inputs: &ResolveInputs| call_requires(resolve, (inputs,)),
    ensures
        exists|resolved: Result<T, String>|
            #[trigger] call_ensures(
                resolve,
                (&composition_inputs(selection, user_theme_read, customization),),
                resolved,
            ) && reports_resolved(resolved, r),
{
    let plan = theme_plan(selection);
    let inputs = resolve_inputs(&plan, user_theme_read, customization);
    assert(inputs == composition_inputs(selection, user_theme_read, customization));
    let resolved = resolve(&inputs);
    let ghost got = resolved;
    let r = report_resolved(resolved);
    assert(call_ensures(
        resolve,
        (&composition_inputs(selection, user_theme_read, customization),),
        got,
    ) && reports_resolved(got, r));
    r
}

/// The compositor's published theme.
pub struct ThemeStore<T> {
    published: Option<T>,
    bundled_dark: T,
}

/// The abstract value of a [`ThemeStore`].
pub struct ThemeStoreView<T> {
    /// The theme last published, if any.
    pub published: Option<T>,
    /// The bundled dark theme, the fallback of every reader.
    pub bundled_dark: T,
}

impl<T> View for ThemeStore<T> {
    type V = ThemeStoreView<T>;

    closed spec fn view(&self) -> ThemeStoreView<T> {
        ThemeStoreView { published: self.published, bundled_dark: self.bundled_dark }
    }
}

/// The theme a reader of `s` gets: the published one, else the bundled dark
/// theme.
pub open spec fn current_theme<T>(s: ThemeStoreView<T>) -> T {
    match s.published {
        Some(t) => t,
        None => s.bundled_dark,
    }
}

/// `s` with `theme` published.
pub open spec fn with_published<T>(s: ThemeStoreView<T>, theme: T) -> ThemeStoreView<T> {
    ThemeStoreView { published: Some(theme), bundled_dark: s.bundled_dark }
}

/// `s` after a reload that composed `composed`: a success is published, a
/// failure leaves `s` as it was.
pub open spec fn after_reload<T>(s: ThemeStoreView<T>, composed: Result<T, String>) -> ThemeStoreView<
    T,
> {
    match composed {
        Ok(t) => with_published(s, t),
        Err(_) => s,
    }
}

/// The theme a startup composition settles on: the composed theme, or the
/// bundled dark theme when composition failed.
pub open spec fn startup_theme<T>(s: ThemeStoreView<T>, composed: Result<T, String>) -> T {
    match composed {
        Ok(t) => t,
        Err(_) => s.bundled_dark,
    }
}

impl<T> ThemeStore<T> {
    /// A store that has published nothing yet, falling back to the bundled
    /// dark theme.
    pub fn new(bundled_dark: T) -> (s: Self)
        ensures
            s@.published is None,
            s@.bundled_dark == bundled_dark,
    {
        ThemeStore { published: None, bundled_dark }
    }
}

/// The published theme. Falls back to the bundled dark theme if nothing was
/// published yet (early startup frames).
pub fn lunaris_theme<T: Clone>(store: &ThemeStore<T>) -> (theme: T)
    ensures
        cloned(current_theme(store@), theme),
{
    match &store.published {
        Some(t) => t.clone(),
        None => store.bundled_dark.clone(),
    }
}

/// Publish a composed theme; every later read gets it.
fn set_lunaris_theme<T>(store: &mut ThemeStore<T>, theme: T)
    ensures
        final(store)@ == with_published(old(store)@, theme),
{
    store.published = Some(theme);
}

/// Publish a theme composed by the appearance watcher.
pub fn replace_lunaris_theme<T>(store: &mut ThemeStore<T>, theme: T)
    ensures
        final(store)@ == with_published(old(store)@, theme),
{
    set_lunaris_theme(store, theme);
}

/// The effective theme at startup, where no last-good theme exists yet: the
/// composed theme, or the bundled dark default when composition failed.
pub fn recompose_effective_theme<T: Clone>(store: &ThemeStore<T>, composed: Result<T, String>) -> (theme: T)
    ensures
        composed is Ok ==> theme == startup_theme(store@, composed),
        composed is Err ==> cloned(startup_theme(store@, composed), theme),
{
    match composed {
        Ok(t) => t,
        Err(_) => store.bundled_dark.clone(),
    }
}

/// The file watcher's reload: a successful composition is published and the
/// outputs must be repainted (`true`); a failed one (a save caught mid-write)
/// keeps the last good theme and schedules nothing (`false`).
pub fn reload_theme<T>(store: &mut ThemeStore<T>, composed: Result<T, String>) -> (repaint: bool)
    ensures
        final(store)@ == after_reload(old(store)@, composed),
        repaint == composed is Ok,
{
    match composed {
        Ok(t) => {
            set_lunaris_theme(store, t);
            true
        },
        Err(_) => false,
    }
}

/// Law: a reader gets back the theme last published.
pub proof fn law_read_gives_back_published<T>(s: ThemeStoreView<T>, theme: T)
    ensures
        current_theme(with_published(s, theme)) == theme,
{
}

/// Law: before anything is published (early startup frames) a reader gets
/// the bundled dark theme.
pub proof fn law_unpublished_reads_bundled_dark<T>(bundled_dark: T)
    ensures
        current_theme(ThemeStoreView { published: None, bundled_dark }) == bundled_dark,
{
}

/// Law: a reload whose composition fails (a save caught mid-write) keeps the
/// last good theme: nothing changes for a reader; a reload that composes
/// publishes the composed theme.
pub proof fn law_failed_reload_keeps_last_good<T>(s: ThemeStoreView<T>, composed: Result<T, String>)
    ensures
        composed is Err ==> after_reload(s, composed) == s,
        composed matches Ok(t) ==> current_theme(after_reload(s, composed)) == t,
{
}

/// Law: the bundled ids choose their own base and need no user file; every
/// other id is a user-installed theme laid over the dark base.
pub proof fn law_theme_bases()
    ensures
        base_of(dark_id()) == BundledBase::Dark,
        base_of(light_id()) == BundledBase::Light,
        !is_user_installed(dark_id()),
        !is_user_installed(light_id()),
        forall|id: Seq<char>| is_user_installed(id) ==> base_of(id) == BundledBase::Dark,
{
    assert(dark_id() != light_id()) by {
        assert(dark_id().len() != light_id().len());
    }
}

/// Law: which ids are user-installed and which base each starts from.
/// Exactly the two bundled ids, `dark` and `light`, need no user file;
/// every other id, whatever it starts with, names a user-installed theme.
/// Exactly `light` starts from the light base; every other id, bundled or
/// not, from the dark one.
pub proof fn law_user_installed_ids(id: Seq<char>)
    ensures
        is_user_installed(id) <==> (id != seq!['d', 'a', 'r', 'k'] && id != seq![
            'l',
            'i',
            'g',
            'h',
            't',
        ]),
        base_of(id) == BundledBase::Light <==> id == seq!['l', 'i', 'g', 'h', 't'],
        base_of(id) == BundledBase::Dark <==> id != seq!['l', 'i', 'g', 'h', 't'],
{
    assert(dark_id() =~= seq!['d', 'a', 'r', 'k']);
    assert(light_id() =~= seq!['l', 'i', 'g', 'h', 't']);
}

/// Law: the active theme id. `[theme].active` wins when set; otherwise
/// `[theme].mode`; otherwise, and when there is no appearance file at all,
/// `dark`.
pub proof fn law_active_id_precedence(sel: ThemeSelection)
    ensures
        sel.active matches Some(a) ==> active_id_of(Some(&sel)) == a@,
        sel.active is None ==> (sel.mode matches Some(m) ==> active_id_of(Some(&sel)) == m@),
        sel.active is None && sel.mode is None ==> active_id_of(Some(&sel)) == seq![
            'd',
            'a',
            'r',
            'k',
        ],
        active_id_of(None) == seq!['d', 'a', 'r', 'k'],
{
    assert(dark_id() =~= seq!['d', 'a', 'r', 'k']);
}

/// Law: what a composition hands to `resolve`. The user-installed theme
/// that was read is passed on exactly when the active id is neither `dark`
/// nor `light` (a missing file is passed as `None`, never an error); the
/// customisation is passed as read; the base is light exactly for `light`.
pub proof fn law_composition_inputs(
    selection: Option<&ThemeSelection>,
    user_theme_read: Option<String>,
    customization: Option<String>,
)
    ensures
        ({
            let id = active_id_of(selection);
            let inputs = composition_inputs(selection, user_theme_read, customization);
            &&& (id != seq!['d', 'a', 'r', 'k'] && id != seq!['l', 'i', 'g', 'h', 't'])
                ==> inputs.user_theme == user_theme_read
            &&& (id == seq!['d', 'a', 'r', 'k'] || id == seq!['l', 'i', 'g', 'h', 't'])
                ==> inputs.user_theme is None
            &&& inputs.customization == customization
            &&& (inputs.base == BundledBase::Light <==> id == seq!['l', 'i', 'g', 'h', 't'])
        }),
{
    law_user_installed_ids(active_id_of(selection));
}

/// Law: at startup, where no last good theme exists, a composition that
/// succeeded is used as composed, and one that failed falls back to the
/// bundled dark theme, whatever was published.
pub proof fn law_startup_falls_back_to_bundled_dark<T>(s: ThemeStoreView<T>, composed: Result<T, String>)
    ensures
        composed matches Ok(t) ==> startup_theme(s, composed) == t,
        composed is Err ==> startup_theme(s, composed) == s.bundled_dark,
{
}

} // verus!
