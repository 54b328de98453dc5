use sock5s::server::shutdown_requested;

#[test]
fn shutdown_on_flag_or_closed_channel() {
    assert!(shutdown_requested(true, true));
    assert!(!shutdown_requested(true, false));
    assert!(shutdown_requested(false, false));
}
