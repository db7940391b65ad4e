use schema_compat::channel::ReqNew;
use schema_compat::channel::ReqOld;
use schema_compat::channel::RespNew;
use schema_compat::channel::RespOld;
use schema_compat::channel::make_v0_client;
use schema_compat::channel::make_v0_server;
use schema_compat::channel::make_v1_client;
use schema_compat::channel::make_v1_server;
use schema_compat::channel::run_network;
use schema_compat::codec::load;
use schema_compat::codec::save;

#[test]
fn requests_are_backward_compatible() {
    assert!(load::<ReqNew>(save(&ReqOld::default()).as_str()).is_ok());
}

#[test]
fn requests_are_forward_compatible() {
    assert!(load::<ReqOld>(save(&ReqNew::default()).as_str()).is_ok());
}

#[test]
fn responses_are_backward_compatible() {
    assert!(load::<RespNew>(save(&RespOld::default()).as_str()).is_ok());
}

#[test]
fn responses_are_forward_compatible() {
    assert!(load::<RespOld>(save(&RespNew::default()).as_str()).is_ok());
}

#[test]
fn server_update_is_ok() {
    assert!(run_network(make_v0_client(), make_v1_server()).is_ok());
}

#[test]
fn same_revision_exchanges_are_ok() {
    assert!(run_network(make_v0_client(), make_v0_server()).is_ok());
    assert!(run_network(make_v1_client(), make_v1_server()).is_ok());
}

#[test]
fn client_update_is_ok() {
    assert!(run_network(make_v1_client(), make_v0_server()).is_ok());
}

#[test]
fn exchange_surfaces_the_greeting() {
    let result = run_network(make_v0_client(), make_v1_server()).unwrap();
    assert_eq!(result, "");
}
