use dactyl_db::{Datastore, DatastoreRoute};

#[test]
fn ambient_route_requires_selector_and_non_empty_route() {
    assert!(DatastoreRoute::from_env_values(None, Some("/tmp/app.db"), None).is_err());
    assert!(DatastoreRoute::from_env_values(Some("sqlite"), None, None).is_err());
    assert!(DatastoreRoute::from_env_values(Some("sqlite"), Some("  "), None).is_err());
    assert!(DatastoreRoute::from_env_values(Some("unknown"), Some("route"), None).is_err());
}

#[test]
fn ambient_selector_controls_backend_and_token_is_neon_only() {
    let sqlite =
        DatastoreRoute::from_env_values(Some("sqlite"), Some("/tmp/app.db"), Some("secret"))
            .unwrap();
    assert_eq!(sqlite.datastore(), Datastore::Sqlite);
    assert_eq!(sqlite.route(), "/tmp/app.db");
    assert_eq!(sqlite.token(), None);

    let neon = DatastoreRoute::from_env_values(
        Some("neon"),
        Some("https://propodus.example"),
        Some("secret"),
    )
    .unwrap();
    assert_eq!(neon.datastore(), Datastore::Neon);
    assert_eq!(neon.route(), "https://propodus.example");
    assert_eq!(neon.token(), Some("secret"));

    let blank_token = DatastoreRoute::from_env_values(
        Some("neon"),
        Some("https://propodus.example"),
        Some("  "),
    )
    .unwrap();
    assert_eq!(blank_token.token(), None);
}
