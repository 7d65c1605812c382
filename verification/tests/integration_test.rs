use amadeus::errors::PluginError;
use amadeus::plugin::{Plugin, PluginMetadata, PluginRegistry, PluginSlot};
use std::sync::{Arc, Mutex};

struct TestState {
    init_called: bool,
    start_called: bool,
    stop_called: bool,
}

struct TestPlugin {
    metadata: PluginMetadata,
    state: Arc<Mutex<TestState>>,
}

impl TestPlugin {
    fn new(state: Arc<Mutex<TestState>>) -> Self {
        Self {
            metadata: PluginMetadata::new("test_plugin", "A test plugin", "0.1.0"),
            state,
        }
    }
}

impl Plugin for TestPlugin {
    fn metadata(&self) -> &PluginMetadata {
        &self.metadata
    }

    fn init(&mut self) -> Result<(), PluginError> {
        self.state.lock().unwrap().init_called = true;
        Ok(())
    }

    fn start(&mut self) -> Result<(), PluginError> {
        self.state.lock().unwrap().start_called = true;
        Ok(())
    }

    fn stop(&mut self) -> Result<(), PluginError> {
        self.state.lock().unwrap().stop_called = true;
        Ok(())
    }
}

#[test]
fn test_plugin_metadata_serialization() {
    let metadata = PluginMetadata::new("my_plugin", "My Description", "1.0.0")
        .author("Alice")
        .enabled_by_default(false)
        .with_property("key", "value");

    let json = metadata.to_json().unwrap();
    let value: serde_json::Value = serde_json::from_str(&json).unwrap();

    assert_eq!(value["name"], "my_plugin");
    assert_eq!(value["description"], "My Description");
    assert_eq!(value["version"], "1.0.0");
    assert_eq!(value["author"], "Alice");
    assert_eq!(value["enabled_by_default"], false);
    assert_eq!(value["properties"]["key"], "value");
}

#[test]
fn test_plugin_lifecycle() {
    let state = Arc::new(Mutex::new(TestState {
        init_called: false,
        start_called: false,
        stop_called: false,
    }));

    let plugin = TestPlugin::new(state.clone());
    let mut registry = PluginRegistry::new();
    registry.register(plugin);

    registry.startup().unwrap();

    {
        let s = state.lock().unwrap();
        assert!(s.init_called, "Init should be called");
        assert!(s.start_called, "Start should be called");
        assert!(!s.stop_called, "Stop should NOT be called yet");
    }

    registry.shutdown().unwrap();

    {
        let s = state.lock().unwrap();
        assert!(s.stop_called, "Stop should be called");
    }
}

#[test]
fn test_plugin_filtering() {
    let state = Arc::new(Mutex::new(TestState {
        init_called: false,
        start_called: false,
        stop_called: false,
    }));

    let p1 = TestPlugin::new(state);

    let p2_meta = PluginMetadata::new("disabled_plugin", "Disabled", "0.1.0").enabled_by_default(false);

    struct DisabledPlugin {
        meta: PluginMetadata,
    }
    impl Plugin for DisabledPlugin {
        fn metadata(&self) -> &PluginMetadata {
            &self.meta
        }
    }
    let p2 = DisabledPlugin { meta: p2_meta };

    let mut registry = PluginRegistry::new();

    let plugins: Vec<PluginSlot> = vec![PluginSlot::new(p1), PluginSlot::new(p2)];
    registry.register_enabled(plugins);

    assert_eq!(registry.plugins().len(), 1);
    assert_eq!(registry.plugins()[0].metadata().name, "test_plugin");
}

#[test]
fn test_lifecycle_stop_order() {
    let log: Arc<Mutex<Vec<String>>> = Arc::new(Mutex::new(Vec::new()));

    struct LoggingPlugin {
        metadata: PluginMetadata,
        log: Arc<Mutex<Vec<String>>>,
    }
    impl Plugin for LoggingPlugin {
        fn metadata(&self) -> &PluginMetadata {
            &self.metadata
        }
        fn init(&mut self) -> Result<(), PluginError> {
            self.log.lock().unwrap().push(format!("init {}", self.metadata.name));
            Ok(())
        }
        fn start(&mut self) -> Result<(), PluginError> {
            self.log.lock().unwrap().push(format!("start {}", self.metadata.name));
            Ok(())
        }
        fn stop(&mut self) -> Result<(), PluginError> {
            self.log.lock().unwrap().push(format!("stop {}", self.metadata.name));
            Ok(())
        }
    }

    let mut registry = PluginRegistry::new();
    for name in ["P1", "P2", "P3"] {
        registry.register(LoggingPlugin {
            metadata: PluginMetadata::new(name, "ordered", "0.1.0"),
            log: log.clone(),
        });
    }
    registry.startup().unwrap();
    registry.shutdown().unwrap();

    let entries = log.lock().unwrap();
    let expected: Vec<&str> = vec![
        "init P1", "init P2", "init P3", "start P1", "start P2", "start P3", "stop P3",
        "stop P2", "stop P1",
    ];
    assert_eq!(entries.len(), expected.len());
    for (have, want) in entries.iter().zip(expected.iter()) {
        assert_eq!(have, want);
    }
}
