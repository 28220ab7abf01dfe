use coinbase::channel::{Channel, Channels};

fn ids(v: &[&str]) -> Vec<String> {
    v.iter().map(|s| s.to_string()).collect()
}

#[test]
fn serialize_channel() {
    let channel = Channel { name: Channels::Status, product_ids: Some(vec!["bar".into()]) };
    let res = channel.to_json();
    println!("{}", res);
    assert_eq!(res, "{\"name\":\"status\",\"product_ids\":[\"bar\"]}");
}

#[test]
fn deserialize_channel() {
    let json = "{\"name\": \"ticker\"}";
    let channel = Channel::from_json(json).expect("a channel");
    println!("{:?}", channel);
    assert!(channel == Channel::new(Channels::Ticker));
}

#[test]
fn deserialize_channel_with_only_name() {
    let json = "\"level2\"";
    let channel = Channel::from_json(json).expect("a channel");
    println!("{:?}", channel);
    assert!(channel == Channel::new(Channels::Level2));
}

#[test]
fn bare_channel_serializes_to_its_name_and_back() {
    let channel = Channel::new(Channels::Ticker);
    assert_eq!(channel.to_json(), "\"ticker\"");
    assert!(Channel::from_json("\"ticker\"") == Some(channel));
}

#[test]
fn restricted_channel_serializes_to_an_object_and_back() {
    let channel = Channel::with_product_ids(Channels::Status, ids(&["BTC-USD"]));
    let json = channel.to_json();
    assert_eq!(json, "{\"name\":\"status\",\"product_ids\":[\"BTC-USD\"]}");
    assert!(Channel::from_json(&json) == Some(channel));
}

#[test]
fn channel_with_empty_product_list_keeps_the_list() {
    let channel = Channel::with_product_ids(Channels::Full, vec![]);
    let json = channel.to_json();
    assert_eq!(json, "{\"name\":\"full\",\"product_ids\":[]}");
    let back = Channel::from_json(&json).expect("a channel");
    assert_eq!(back.product_ids, Some(vec![]));
}

#[test]
fn product_ids_with_quotes_are_escaped_and_read_back() {
    let channel = Channel::with_product_ids(Channels::User, ids(&["a\"b", "c\\d", "e\nf"]));
    let json = channel.to_json();
    assert_eq!(json, "{\"name\":\"user\",\"product_ids\":[\"a\\\"b\",\"c\\\\d\",\"e\\nf\"]}");
    assert!(Channel::from_json(&json) == Some(channel));
}

#[test]
fn every_channel_name_round_trips() {
    let all = [
        (Channels::Heartbeat, "heartbeat"),
        (Channels::Status, "status"),
        (Channels::Ticker, "ticker"),
        (Channels::Level2, "level2"),
        (Channels::Matches, "matches"),
        (Channels::User, "user"),
        (Channels::Full, "full"),
    ];
    for (c, name) in all {
        assert_eq!(c.to_string(), name);
        assert_eq!(Channels::from_str(name), Ok(c));
        assert_eq!(Channels::from_lowercase(name), Some(c));
    }
}

#[test]
fn channel_names_ignore_letter_case() {
    assert_eq!(Channels::from_str("TICKER"), Ok(Channels::Ticker));
    assert_eq!(Channels::from_str("Level2"), Ok(Channels::Level2));
    assert_eq!(Channels::from_lowercase("Level2"), None);
    assert_eq!(Channels::from_str("candles"), Err(()));
    assert!(Channel::from_json("\"HeartBeat\"") == Some(Channel::new(Channels::Heartbeat)));
}

#[test]
fn from_names_makes_unrestricted_channels() {
    let v = Channel::from_names(&[Channels::Ticker, Channels::Full]);
    assert_eq!(v.len(), 2);
    assert!(v[0] == Channel::new(Channels::Ticker));
    assert!(v[1] == Channel::new(Channels::Full));
}

#[test]
fn object_members_in_any_order_with_whitespace() {
    let json = " { \"product_ids\" : [ \"ETH-USD\" , \"ETH-EUR\" ] , \"name\" : \"level2\" } ";
    let expected = Channel::with_product_ids(Channels::Level2, ids(&["ETH-USD", "ETH-EUR"]));
    assert!(Channel::from_json(json) == Some(expected));
}

#[test]
fn null_product_ids_are_refused() {
    let json = "{\"name\":\"matches\",\"product_ids\":null}";
    assert!(Channel::from_json(json).is_none());
}

#[test]
fn channel_name_lookup_reads_exact_or_lower_cased_names() {
    assert_eq!(Channels::from_name("ticker"), Some(Channels::Ticker));
    assert_eq!(Channels::from_name("TICKER"), Some(Channels::Ticker));
    assert_eq!(Channels::from_name("candles"), None);
    assert_eq!(Channels::from_str(&Channels::Matches.to_string()), Ok(Channels::Matches));
}

#[test]
fn malformed_channels_are_refused() {
    assert!(Channel::from_json("{\"name\":\"ticker\",\"name\":\"full\"}").is_none());
    assert!(Channel::from_json("{\"name\":\"ticker\",\"colour\":\"red\"}").is_none());
    assert!(Channel::from_json("{\"product_ids\":[\"BTC-USD\"]}").is_none());
    assert!(Channel::from_json("\"candles\"").is_none());
    assert!(Channel::from_json("\"ticker\" x").is_none());
    assert!(Channel::from_json("{\"name\":\"ticker\"").is_none());
    assert!(Channel::from_json("{\"name\":\"ticker\",\"product_ids\":[1]}").is_none());
    assert!(Channel::from_json("").is_none());
}

#[test]
fn channels_compare_by_name_and_products() {
    let a = Channel::with_product_ids(Channels::Ticker, ids(&["BTC-USD"]));
    let b = Channel::with_product_ids(Channels::Ticker, ids(&["BTC-USD"]));
    let c = Channel::with_product_ids(Channels::Ticker, ids(&["ETH-USD"]));
    assert!(a == b);
    assert!(a != c);
    assert!(a != Channel::new(Channels::Ticker));
    assert!(a.duplicate() == a);
}
