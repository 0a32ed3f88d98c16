use mercury::constants::{get_issues_url, get_releases_url, get_repo_url};
use mercury::model::HttpMethod;
use mercury::theme::{Colors, Swatch};
use mercury::ui::{shortcuts, Importer, KeyCode, Tab};
use mercury::workspace::{
    copy_file_name, ensure_free, is_env_file, is_hidden, renamed_file_name, request_file_for,
};

#[test]
fn shortcuts_are_unique() {
    let all = shortcuts();
    for (i, a) in all.iter().enumerate() {
        for b in &all[i + 1..] {
            let same = a.key == b.key && a.command == b.command && a.shift == b.shift;
            assert!(!same, "{} and {} share a key binding", a.label, b.label);
            assert_ne!(a.action, b.action);
        }
    }
}

#[test]
fn shortcut_firing_rules() {
    let all = shortcuts();
    let send = all[0];
    assert_eq!(send.key, KeyCode::Enter);
    assert!(send.fires(true, false, true, false, true));
    assert!(!send.fires(true, true, true, false, false));
    let help = all[all.len() - 1];
    assert!(help.fires(false, true, false, true, false));
    assert!(!help.fires(false, false, true, false, true));
}

#[test]
fn tabs_and_importers() {
    assert_eq!(Tab::all(), [Tab::Body, Tab::Params, Tab::Headers, Tab::Auth]);
    assert_eq!(Importer::insomnia().extensions, vec!["json", "yaml", "yml"]);
    assert_eq!(Importer::postman().name, "Postman");
}

#[test]
fn palette_decisions() {
    assert_eq!(Colors::status(204), (Swatch::Success, Swatch::SuccessBg));
    assert_eq!(Colors::status(301), (Swatch::Warning, Swatch::WarningBg));
    assert_eq!(Colors::status(404), (Swatch::Error, Swatch::ErrorBg));
    assert_eq!(Colors::env(".env.production"), Swatch::Error);
    assert_eq!(Colors::env(".env.staging"), Swatch::Warning);
    assert_eq!(Colors::env(".env.dev"), Swatch::TextSecondary);
    assert_eq!(Colors::method(HttpMethod::PATCH), Swatch::Rgb(234, 179, 8));
}

#[test]
fn project_links() {
    assert_eq!(get_repo_url(), "https://github.com/Harry-kp/mercury");
    assert_eq!(get_issues_url(), "https://github.com/Harry-kp/mercury/issues");
    assert_eq!(get_releases_url(), "https://github.com/Harry-kp/mercury/releases");
}

#[test]
fn workspace_names() {
    assert_eq!(request_file_for(" login "), "login.json");
    assert_eq!(request_file_for("login.json"), "login.json");
    assert_eq!(renamed_file_name("signin", true), "signin.json");
    assert_eq!(renamed_file_name("docs", false), "docs");
    assert_eq!(copy_file_name("login", "json", 2), "login_copy2.json");
    assert_eq!(ensure_free(true, "a.json"), Err("'a.json' already exists".to_string()));
    assert_eq!(ensure_free(false, "a.json"), Ok(()));
    assert!(is_hidden(".git") && !is_hidden("users"));
    assert!(is_env_file(".env.prod") && is_env_file(".env") && !is_env_file("env"));
}

#[test]
fn workspace_opens_with_remembered_then_dev_environment() {
    let files = vec![".env".to_string(), ".env.production".to_string(), ".env.dev".to_string()];
    assert_eq!(mercury::ui::pick_env(&files, Some(".env.production")), Some(1));
    assert_eq!(mercury::ui::pick_env(&files, Some(".env.gone")), Some(2));
    assert_eq!(mercury::ui::pick_env(&files, None), Some(2));
    let plain = vec![".env".to_string(), ".env.staging".to_string()];
    assert_eq!(mercury::ui::pick_env(&plain, None), Some(0));
    assert_eq!(mercury::ui::pick_env(&vec![], Some(".env")), None);
}

#[test]
fn next_environment_cycles_to_none_after_the_last() {
    assert_eq!(mercury::ui::next_env(None, 2), Some(0));
    assert_eq!(mercury::ui::next_env(Some(0), 2), Some(1));
    assert_eq!(mercury::ui::next_env(Some(1), 2), None);
    assert_eq!(mercury::ui::next_env(None, 0), None);
}
