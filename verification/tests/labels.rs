use cctui::Provider;
use cctui::Source;
use cctui::source::display_label;

fn circleci(name: &str, workflow: &str, branch: Option<&str>) -> Source {
    Source {
        name: name.to_string(),
        provider: Provider::CircleCi {
            workflow: workflow.to_string(),
            branch: branch.map(|b| b.to_string()),
        },
        refresh_interval: 1,
    }
}

#[test]
fn unique_name_renders_bare() {
    let sources = vec![circleci("org/repo", "build", None)];
    assert_eq!(display_label(&sources, 0), "org/repo");
}

#[test]
fn shared_name_disambiguates_by_workflow() {
    let sources = vec![
        circleci("org/repo", "build", None),
        circleci("org/repo", "deploy", None),
    ];
    assert_eq!(display_label(&sources, 0), "org/repo (build)");
    assert_eq!(display_label(&sources, 1), "org/repo (deploy)");
}

#[test]
fn explicit_branch_joins_the_workflow() {
    let sources = vec![
        circleci("org/repo", "build", Some("dev")),
        circleci("org/repo", "build", Some("main")),
    ];
    assert_eq!(display_label(&sources, 0), "org/repo (build on dev)");
    assert_eq!(display_label(&sources, 1), "org/repo (build on main)");
}

#[test]
fn continuous_testing_feed_always_renders_bare() {
    let sources = vec![
        Source {
            name: "org/repo".to_string(),
            provider: Provider::CcTray,
            refresh_interval: 1,
        },
        circleci("org/repo", "build", None),
    ];
    assert_eq!(display_label(&sources, 0), "org/repo");
    assert_eq!(display_label(&sources, 1), "org/repo (build)");
}

#[test]
fn mixed_registry_only_disambiguates_collisions() {
    let sources = vec![
        circleci("org/one", "build", None),
        circleci("org/two", "build", None),
        circleci("org/two", "deploy", Some("release")),
    ];
    assert_eq!(display_label(&sources, 0), "org/one");
    assert_eq!(display_label(&sources, 1), "org/two (build)");
    assert_eq!(display_label(&sources, 2), "org/two (deploy on release)");
}

#[test]
fn dashboard_labels_disambiguate_like_the_registry() {
    let app = cctui::App::new(vec![
        circleci("org/repo", "build", None),
        circleci("org/repo", "deploy", None),
        circleci("org/solo", "build", None),
    ]);
    assert_eq!(app.label(0), "org/repo (build)");
    assert_eq!(app.label(1), "org/repo (deploy)");
    assert_eq!(app.label(2), "org/solo");
}
