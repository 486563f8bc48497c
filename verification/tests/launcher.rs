use cvlab_launcher::codec::{load_config, save_config, validate_model_path};
use cvlab_launcher::config::{Config, ConfigError};
use cvlab_launcher::controller::{launch_command, LauncherController, Platform};

fn config(collections: &[&str], od_model: &str) -> Config {
    Config {
        collections: collections.iter().map(|s| String::from(*s)).collect(),
        od_model: String::from(od_model),
    }
}

#[test]
fn rendering_is_exact() {
    let c = config(&["a", "b"], "m.onnx");
    assert_eq!(save_config(&c), "{\"collections\":[\"a\",\"b\"],\"od_model\":\"m.onnx\"}");
}

#[test]
fn rendering_empty_list_is_exact() {
    let c = config(&[], "m");
    assert_eq!(save_config(&c), "{\"collections\":[],\"od_model\":\"m\"}");
}

#[test]
fn rendering_escapes_quotes_and_backslashes() {
    let c = config(&["a\"b"], "C:\\models\\net.onnx");
    assert_eq!(
        save_config(&c),
        "{\"collections\":[\"a\\\"b\"],\"od_model\":\"C:\\\\models\\\\net.onnx\"}"
    );
}

#[test]
fn round_trip_plain() {
    let c = config(&["./data", "./more data"], "m.onnx");
    let first = save_config(&c);
    let back = load_config(Some(&first)).expect("rendered document must load");
    assert_eq!(back, c);
    assert_eq!(save_config(&back), first);
}

#[test]
fn round_trip_empty_fields() {
    let c = config(&[], "");
    let first = save_config(&c);
    let back = load_config(Some(&first)).expect("rendered document must load");
    assert_eq!(back, c);
    assert_eq!(save_config(&back), first);
}

#[test]
fn round_trip_spaces_unicode_and_escapes() {
    let c = config(
        &["päth with späces/ü", "a\"quoted\"b", "C:\\data\\x", "日本語/データ", ""],
        "mödel \"v2\"\\final.onnx",
    );
    let first = save_config(&c);
    let back = load_config(Some(&first)).expect("rendered document must load");
    assert_eq!(back, c);
    assert_eq!(save_config(&back), first);
}

#[test]
fn missing_file_yields_config_missing() {
    assert_eq!(load_config(None), Err(ConfigError::ConfigMissing));
}

#[test]
fn malformed_documents_are_rejected() {
    let malformed = [
        "",
        "{",
        "not a config",
        "{\"collections\":[],\"od_model\":\"m\"} ",
        "x{\"collections\":[],\"od_model\":\"m\"}",
        "{\"collections\":[\"a\",],\"od_model\":\"m\"}",
        "{\"collections\":[\"a\"],\"od_model\":\"m\"",
        "{\"collections\":[\"a\"],\"model\":\"m\"}",
        "{\"od_model\":\"m\",\"collections\":[]}",
        "{\"collections\":\"a\",\"od_model\":\"m\"}",
        "{\"collections\":[\"a\"],\"od_model\":\"m\\x\"}",
        "{\"collections\":[\"a\"]，\"od_model\":\"m\"}",
    ];
    for text in malformed {
        assert_eq!(load_config(Some(text)), Err(ConfigError::ConfigMalformed), "{}", text);
    }
}

#[test]
fn model_path_validation_follows_existence() {
    assert_eq!(validate_model_path(true), Ok(()));
    assert_eq!(validate_model_path(false), Err(ConfigError::ModelPathInvalid));
}

#[test]
fn model_path_invalid_regardless_of_collections() {
    for c in [config(&[], "gone.onnx"), config(&["a", "b"], "gone.onnx")] {
        let text = save_config(&c);
        let loaded = load_config(Some(&text)).expect("rendered document must load");
        assert_eq!(loaded, c);
        assert_eq!(validate_model_path(false), Err(ConfigError::ModelPathInvalid));
    }
}

#[test]
fn add_with_existing_path_appends_and_clears_pending() {
    let mut ctl = LauncherController::new(config(&["kept"], "m.onnx"));
    ctl.set_pending_collection(String::from("./data"));
    ctl.add_collection(true);
    assert_eq!(ctl.config.collections, vec![String::from("kept"), String::from("./data")]);
    assert_eq!(ctl.pending_collection, "");
    assert!(ctl.last_error.is_none());
}

#[test]
fn add_with_missing_path_reports_and_mutates_nothing() {
    let mut ctl = LauncherController::new(config(&["kept"], "m.onnx"));
    ctl.set_pending_collection(String::from("./missing"));
    ctl.add_collection(false);
    assert_eq!(ctl.config.collections, vec![String::from("kept")]);
    assert_eq!(ctl.pending_collection, "./missing");
    assert_eq!(ctl.last_error.as_deref(), Some("Collection does not exist"));
}

#[test]
fn add_permits_duplicates() {
    let mut ctl = LauncherController::new(config(&["./data"], "m.onnx"));
    ctl.set_pending_collection(String::from("./data"));
    ctl.add_collection(true);
    assert_eq!(ctl.config.collections, vec![String::from("./data"), String::from("./data")]);
}

#[test]
fn new_edit_clears_last_error() {
    let mut ctl = LauncherController::new(config(&[], "m.onnx"));
    ctl.set_pending_collection(String::from("./missing"));
    ctl.add_collection(false);
    assert!(ctl.last_error.is_some());
    ctl.set_pending_collection(String::from("./other"));
    assert!(ctl.last_error.is_none());
}

#[test]
fn remove_first_of_two_keeps_the_second() {
    let mut ctl = LauncherController::new(config(&["a", "b"], "m.onnx"));
    assert_eq!(ctl.remove_collection(0), Ok(()));
    assert_eq!(ctl.config.collections, vec![String::from("b")]);
}

#[test]
fn remove_preserves_relative_order() {
    let mut ctl = LauncherController::new(config(&["a", "b", "c", "d"], "m.onnx"));
    assert_eq!(ctl.remove_collection(1), Ok(()));
    assert_eq!(
        ctl.config.collections,
        vec![String::from("a"), String::from("c"), String::from("d")]
    );
}

#[test]
fn remove_out_of_range_signals_and_mutates_nothing() {
    let mut ctl = LauncherController::new(config(&["a", "b"], "m.onnx"));
    assert_eq!(ctl.remove_collection(2), Err(ConfigError::IndexOutOfRange));
    assert_eq!(ctl.config.collections, vec![String::from("a"), String::from("b")]);
}

#[test]
fn set_model_path_is_unchecked_free_text() {
    let mut ctl = LauncherController::new(config(&["a"], "m.onnx"));
    ctl.set_model_path(String::from("not-there-yet.onnx"));
    assert_eq!(ctl.config.od_model, "not-there-yet.onnx");
    assert_eq!(ctl.config.collections, vec![String::from("a")]);
}

#[test]
fn session_scenario_load_add_save_reload() {
    let start = config(&[], "m.onnx");
    let stored = save_config(&start);
    let loaded = load_config(Some(&stored)).expect("load must succeed");
    assert_eq!(validate_model_path(true), Ok(()));
    let mut ctl = LauncherController::new(loaded);
    ctl.set_pending_collection(String::from("./data"));
    ctl.add_collection(true);
    assert_eq!(ctl.config.collections, vec![String::from("./data")]);
    let written = ctl.save_payload();
    let reloaded = load_config(Some(&written)).expect("reload must succeed");
    assert_eq!(reloaded, ctl.config);
}

#[test]
fn launch_command_is_fixed_per_platform() {
    let win = launch_command(Platform::Windows);
    assert_eq!(win.program, "cmd");
    assert_eq!(win.args, vec![
        String::from("/C"),
        String::from("D:\\Projects\\python\\yolo-lab\\CVLAB.bat"),
    ]);
    let other = launch_command(Platform::Other);
    assert_eq!(other.program, "sh");
    assert_eq!(other.args, vec![String::from("-c"), String::from("echo hello")]);
}

#[test]
fn error_messages_are_stable() {
    assert_eq!(ConfigError::ConfigMissing.message(), "config.json does not exist");
    assert_eq!(ConfigError::ConfigMalformed.message(), "malformed configuration file");
    assert_eq!(ConfigError::ModelPathInvalid.message(), "model path does not exist");
    assert_eq!(ConfigError::ConfigWriteFailed.message(), "could not write config.json");
    assert_eq!(ConfigError::CollectionPathInvalid.message(), "Collection does not exist");
    assert_eq!(ConfigError::LaunchFailed.message(), "could not start the external process");
    assert_eq!(ConfigError::IndexOutOfRange.message(), "collection index out of range");
}
