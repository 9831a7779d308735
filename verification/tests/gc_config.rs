use matchbox_vm::vm::gc::GCConfig;

#[test]
fn gcconfig_esp32_preset() {
    let cfg = GCConfig::for_esp32();
    assert_eq!(cfg.initial_capacity, 128);
    assert_eq!(cfg.initial_threshold, 256);
    assert_eq!(cfg.max_threshold, 1024);
    assert_eq!(cfg.max_objects, Some(2048));
}

#[test]
fn gcconfig_desktop_preset() {
    let cfg = GCConfig::for_desktop();
    assert_eq!(cfg.initial_capacity, 1024);
    assert_eq!(cfg.initial_threshold, 10000);
    assert_eq!(cfg.max_threshold, 100000);
    assert_eq!(cfg.max_objects, None);
}

#[test]
fn gcconfig_wasm_preset() {
    let cfg = GCConfig::for_wasm();
    assert_eq!(cfg.initial_capacity, 512);
    assert_eq!(cfg.initial_threshold, 2000);
    assert_eq!(cfg.max_threshold, 20000);
    assert_eq!(cfg.max_objects, Some(50000));
}

#[test]
fn gcconfig_default_is_the_desktop_preset() {
    let cfg = GCConfig::default();
    assert_eq!(cfg.initial_capacity, 1024);
    assert_eq!(cfg.initial_threshold, 10000);
    assert_eq!(cfg.max_threshold, 100000);
    assert_eq!(cfg.max_objects, None);
}
