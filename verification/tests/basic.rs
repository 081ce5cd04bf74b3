//! Smoke tests.

use signalhub::hub::Hub;

#[test]
fn it_works() {
}

#[test]
fn new_hub_is_empty() {
    let hub = Hub::new();
    assert_eq!(hub.num_client(), 0);
    assert!(!hub.has_client("anyone"));
}
