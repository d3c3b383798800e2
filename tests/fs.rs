use guarakapa::fs::{data_dir, file_path, get_filename};

#[test]
fn configured_path_is_used_as_given() {
    let p = Some("/tmp/store/data.bin".to_string());
    assert_eq!(data_dir(&p, "/home/u"), "/tmp/store");
    assert_eq!(get_filename(&p), "data.bin");
    assert_eq!(file_path(p, "/home/u".to_string()), "/tmp/store/data.bin");
}

#[test]
fn default_path_is_under_the_config_directory() {
    assert_eq!(data_dir(&None, "/home/u"), "/home/u/.config/guarakapa");
    assert_eq!(get_filename(&None), "gk.dat");
    assert_eq!(
        file_path(None, "/home/u".to_string()),
        "/home/u/.config/guarakapa/gk.dat"
    );
}

#[test]
fn bare_file_name_stays_relative() {
    let p = Some("data.bin".to_string());
    assert_eq!(data_dir(&p, "/home/u"), "");
    assert_eq!(file_path(p, "/home/u".to_string()), "data.bin");
}

#[test]
fn root_path_falls_back_to_defaults() {
    let p = Some("/".to_string());
    assert_eq!(data_dir(&p, "/home/u"), ".");
    assert_eq!(get_filename(&p), "gk.dat");
    assert_eq!(file_path(p, "/home/u".to_string()), "./gk.dat");
}

#[test]
fn parent_directory_component_is_not_a_file_name() {
    let p = Some("store/..".to_string());
    assert_eq!(get_filename(&p), "gk.dat");
    assert_eq!(data_dir(&p, "/home/u"), "store");
}
