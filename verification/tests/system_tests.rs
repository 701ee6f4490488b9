use nemoscene::app_manager::BundleLoad;
use nemoscene::configuration::ConfigurationRegistry;
use nemoscene::dashboard::Dashboard;
use nemoscene::network::NetworkManager;
use nemoscene::system_state::SystemState;
use nemoscene::value::Value;

fn wifi_load() -> BundleLoad {
    BundleLoad {
        path: String::from("data/wifi"),
        files: vec![
            (
                String::from("data/wifi/config/bundle"),
                Some(vec![(
                    String::from("uuid"),
                    Value::Text(String::from("wifi")),
                )]),
            ),
            (
                String::from("data/wifi/config/home"),
                Some(vec![
                    (String::from("name"), Value::Text(String::from("net"))),
                    (String::from("password"), Value::Text(String::from("SECRET-REDACTED"))),
                ]),
            ),
        ],
    }
}

fn widgets_load() -> BundleLoad {
    BundleLoad {
        path: String::from("data/widgets"),
        files: vec![
            (
                String::from("data/widgets/config/bundle"),
                Some(vec![(
                    String::from("uuid"),
                    Value::Text(String::from("widgets")),
                )]),
            ),
            (
                String::from("data/widgets/config/clock"),
                Some(vec![
                    (String::from("uuid"), Value::Text(String::from("clock-app"))),
                    (String::from("position_x"), Value::Integer(10)),
                    (String::from("position_y"), Value::Integer(20)),
                    (String::from("width"), Value::Integer(300)),
                    (String::from("height"), Value::Integer(100)),
                ]),
            ),
            (
                String::from("data/widgets/config/broken"),
                Some(vec![(String::from("uuid"), Value::Text(String::from("x")))]),
            ),
        ],
    }
}

fn registry_snapshot(reg: &ConfigurationRegistry) -> Vec<String> {
    let mut out = Vec::new();
    for i in 0..reg.base_count() {
        let base = reg.base_at(i);
        let mut line = String::from(base.get_path());
        for j in 0..base.property_count() {
            let (k, v) = base.property_at(j);
            line.push(' ');
            line.push_str(k.as_str());
            line.push('=');
            line.push_str(&format!("{:?}", v));
        }
        out.push(line);
    }
    out
}

#[test]
fn init_builds_every_collaborator() {
    let mut state = SystemState::new();
    state.init(vec![wifi_load(), widgets_load()]);

    let bundle = state.app_manager.get_bundle("wifi").unwrap();
    assert_eq!(bundle.base_path, "data/wifi");
    assert!(state.app_manager.get_bundle("ghost").is_none());

    let home = state
        .configuration
        .get_base_of_bundle("wifi", "home")
        .unwrap();
    assert_eq!(home.get_str("name").unwrap(), "net");

    let connections = state.network_manager.connections();
    assert_eq!(connections.len(), 1);
    assert_eq!(connections[0].0, "net");
    assert_eq!(connections[0].1, "SECRET-REDACTED");

    let widgets = state.dashboard.widgets();
    assert_eq!(widgets.len(), 1);
    assert_eq!(widgets[0].uuid, "clock-app");
    assert_eq!(widgets[0].position_x, 10);
    assert_eq!(widgets[0].height, 100);
    assert!(state.dashboard.get_reload_requested());
}

#[test]
fn reload_is_deterministic() {
    let mut state = SystemState::new();
    state.init(vec![wifi_load(), widgets_load()]);
    let first = registry_snapshot(&state.configuration);
    state.init(vec![wifi_load(), widgets_load()]);
    let second = registry_snapshot(&state.configuration);
    assert_eq!(first, second);
    assert!(!first.is_empty());
}

#[test]
fn directories_without_a_manifest_are_skipped() {
    let mut state = SystemState::new();
    state.init(vec![BundleLoad {
        path: String::from("data/stray"),
        files: vec![(String::from("data/stray/config/notes"), Some(Vec::new()))],
    }]);
    assert_eq!(state.configuration.base_count(), 0);
    assert!(state.app_manager.get_bundle("stray").is_none());
}

#[test]
fn network_reconnect_collects_once() {
    let mut reg = ConfigurationRegistry::new();
    reg.load_base(
        "data/wifi/config/home",
        vec![
            (String::from("name"), Value::Text(String::from("net"))),
            (String::from("password"), Value::Text(String::from("SECRET-REDACTED"))),
        ],
    );
    reg.load_base(
        "data/wifi/config/incomplete",
        vec![(String::from("name"), Value::Text(String::from("half")))],
    );
    let mut nm = NetworkManager::new();
    nm.init(&reg);
    assert_eq!(nm.connections().len(), 1);
    assert_eq!(nm.connections()[0].0, "net");

    let mut reg2 = ConfigurationRegistry::new();
    reg2.load_base(
        "data/wifi/config/other",
        vec![
            (String::from("name"), Value::Text(String::from("other"))),
            (String::from("password"), Value::Text(String::from("SECRET-REDACTED"))),
        ],
    );
    nm.init(&reg2);
    assert_eq!(nm.connections()[0].0, "net");
    nm.set_reconnect_requested(true);
    nm.init(&reg2);
    assert_eq!(nm.connections()[0].0, "other");
}

#[test]
fn dashboard_reload_flag() {
    let reg = ConfigurationRegistry::new();
    let mut dash = Dashboard::new();
    assert!(dash.get_reload_requested());
    dash.set_reload_requested(false);
    assert!(!dash.get_reload_requested());
    dash.init(&reg).unwrap();
    assert!(dash.get_reload_requested());
    assert!(dash.widgets().is_empty());
}
