use coinbase::channel::{Channel, Channels};
use coinbase::request::{RequestMessages, SubscribeRequest, UnsubscribeRequest};

fn ids(v: &[&str]) -> Vec<String> {
    v.iter().map(|s| s.to_string()).collect()
}

#[test]
fn subscribe_envelope_lists_products_and_channels() {
    let req = SubscribeRequest::new(
        ids(&["BTC-USD", "ETH-USD"]),
        vec![Channel::new(Channels::Ticker), Channel::with_product_ids(Channels::Level2, ids(&["BTC-USD"]))],
    );
    assert_eq!(
        req.to_json(),
        "{\"type\":\"subscribe\",\"product_ids\":[\"BTC-USD\",\"ETH-USD\"],\"channels\":[\"ticker\",{\"name\":\"level2\",\"product_ids\":[\"BTC-USD\"]}]}"
    );
}

#[test]
fn empty_subscribe_envelope() {
    let req = RequestMessages::Subscribe { req: SubscribeRequest::new(vec![], vec![]) };
    assert_eq!(req.to_json(), "{\"type\":\"subscribe\",\"product_ids\":[],\"channels\":[]}");
}

#[test]
fn unsubscribe_envelope_with_products() {
    let req = UnsubscribeRequest::new(ids(&["BTC-USD"]), vec![Channel::new(Channels::Heartbeat)]);
    assert_eq!(
        req.to_json(),
        "{\"type\":\"unsubscribe\",\"product_ids\":[\"BTC-USD\"],\"channels\":[\"heartbeat\"]}"
    );
}

#[test]
fn unsubscribe_from_channels_leaves_out_product_ids() {
    let req = RequestMessages::Unsubscribe {
        req: UnsubscribeRequest::unsubscribe_from_channels(vec![Channel::new(Channels::Full)]),
    };
    assert_eq!(req.to_json(), "{\"type\":\"unsubscribe\",\"channels\":[\"full\"]}");
}
