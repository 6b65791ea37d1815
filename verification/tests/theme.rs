use arlen_comp::theme::{
    active_theme_id, bundled_base, customization_error, lunaris_theme, recompose_effective_theme,
    reload_theme, replace_lunaris_theme, report_resolved, resolve_inputs, theme_plan, try_recompose_effective_theme,
    wants_user_theme, BundledBase, ResolveInputs, ThemeSelection, ThemeStore,
};

fn sel(active: Option<&str>, mode: Option<&str>) -> ThemeSelection {
    ThemeSelection { active: active.map(str::to_string), mode: mode.map(str::to_string) }
}

#[test]
fn the_active_id_prefers_active_then_mode_then_dark() {
    assert_eq!(active_theme_id(Some(&sel(Some("nord"), Some("light")))), "nord");
    assert_eq!(active_theme_id(Some(&sel(None, Some("light")))), "light");
    assert_eq!(active_theme_id(Some(&sel(None, None))), "dark");
    assert_eq!(active_theme_id(None), "dark");
}

#[test]
fn only_light_starts_from_the_light_base() {
    assert_eq!(bundled_base("light"), BundledBase::Light);
    assert_eq!(bundled_base("dark"), BundledBase::Dark);
    assert_eq!(bundled_base("nord"), BundledBase::Dark);
    assert_eq!(bundled_base("Light"), BundledBase::Dark);
}

#[test]
fn only_non_bundled_ids_read_a_user_theme() {
    assert!(!wants_user_theme("dark"));
    assert!(!wants_user_theme("light"));
    assert!(wants_user_theme("nord"));
    assert!(wants_user_theme(""));
}

#[test]
fn a_composition_error_is_prefixed() {
    assert_eq!(customization_error("bad key"), "customization parse error: bad key");
    assert_eq!(
        report_resolved::<u32>(Err("x".to_string())),
        Err("customization parse error: x".to_string())
    );
    assert_eq!(report_resolved::<u32>(Ok(7)), Ok(7));
}

/// A stand-in for the theme crate's `resolve`: it describes its inputs, and
/// fails on a customisation that says `broken`.
fn describe(inputs: &ResolveInputs) -> Result<String, String> {
    if inputs.customization.as_deref() == Some("broken") {
        return Err("line 1: broken".to_string());
    }
    Ok(format!(
        "{:?}+{}+{}",
        inputs.base,
        inputs.user_theme.as_deref().unwrap_or("-"),
        inputs.customization.as_deref().unwrap_or("-")
    ))
}

#[test]
fn a_composition_resolves_the_planned_inputs() {
    let nord = sel(Some("nord"), None);
    assert_eq!(
        try_recompose_effective_theme(Some(&nord), Some("N".to_string()), Some("C".to_string()), describe),
        Ok("Dark+N+C".to_string())
    );
    assert_eq!(
        try_recompose_effective_theme(Some(&nord), None, None, describe),
        Ok("Dark+-+-".to_string())
    );
    let light = sel(None, Some("light"));
    assert_eq!(
        try_recompose_effective_theme(Some(&light), Some("stray".to_string()), None, describe),
        Ok("Light+-+-".to_string())
    );
    assert_eq!(
        try_recompose_effective_theme(None, Some("stray".to_string()), None, describe),
        Ok("Dark+-+-".to_string())
    );
    assert_eq!(
        try_recompose_effective_theme(None, None, Some("broken".to_string()), describe),
        Err("customization parse error: line 1: broken".to_string())
    );
}

#[test]
fn readers_get_the_bundled_dark_theme_until_one_is_published() {
    let mut store = ThemeStore::new("dark");
    assert_eq!(lunaris_theme(&store), "dark");
    replace_lunaris_theme(&mut store, "nord");
    assert_eq!(lunaris_theme(&store), "nord");
}

#[test]
fn startup_falls_back_to_the_bundled_dark_theme() {
    let store = ThemeStore::new("dark");
    assert_eq!(recompose_effective_theme(&store, Ok("nord")), "nord");
    assert_eq!(recompose_effective_theme(&store, Err("broken".to_string())), "dark");
}

#[test]
fn a_failed_reload_keeps_the_last_good_theme() {
    let mut store = ThemeStore::new("dark");
    assert!(reload_theme(&mut store, Ok("nord")));
    assert!(!reload_theme(&mut store, Err("mid-write".to_string())));
    assert_eq!(lunaris_theme(&store), "nord");
    assert!(reload_theme(&mut store, Ok("light")));
    assert_eq!(lunaris_theme(&store), "light");
}

#[test]
fn the_plan_follows_the_selection() {
    let plan = theme_plan(Some(&sel(Some("nord"), Some("light"))));
    assert_eq!(plan.active_id, "nord");
    assert_eq!(plan.base, BundledBase::Dark);
    assert!(plan.user_theme_wanted);
    let plan = theme_plan(Some(&sel(None, Some("light"))));
    assert_eq!(plan.active_id, "light");
    assert_eq!(plan.base, BundledBase::Light);
    assert!(!plan.user_theme_wanted);
    let plan = theme_plan(None);
    assert_eq!(plan.active_id, "dark");
    assert_eq!(plan.base, BundledBase::Dark);
    assert!(!plan.user_theme_wanted);
}

#[test]
fn a_user_theme_is_passed_on_only_when_wanted() {
    let nord = theme_plan(Some(&sel(Some("nord"), None)));
    let inputs = resolve_inputs(&nord, Some("[colors]".to_string()), Some("x = 1".to_string()));
    assert_eq!(inputs.base, BundledBase::Dark);
    assert_eq!(inputs.user_theme.as_deref(), Some("[colors]"));
    assert_eq!(inputs.customization.as_deref(), Some("x = 1"));
    let missing = resolve_inputs(&nord, None, None);
    assert_eq!(missing.user_theme, None);
    assert_eq!(missing.customization, None);
    let light = theme_plan(Some(&sel(Some("light"), None)));
    let inputs = resolve_inputs(&light, Some("stray".to_string()), None);
    assert_eq!(inputs.base, BundledBase::Light);
    assert_eq!(inputs.user_theme, None);
}
