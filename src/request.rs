use vstd::prelude::*;
use vstd::string::StringExecFns;

use crate::channel::{channel_array_json, channel_views, push_channel_array, texts, Channel, ChannelView};
use crate::json::{json_string_array, push_json_string_array};

verus! {

/// An outbound envelope, tagged by its `type` field.
#[derive(Debug)]
pub enum RequestMessages {
    Subscribe { req: SubscribeRequest },
    Unsubscribe { req: UnsubscribeRequest },
}

/// Asks for the given products on the given channels.
#[derive(Debug)]
pub struct SubscribeRequest {
    pub product_ids: Vec<String>,
    pub channels: Vec<Channel>,
}

/// Drops the given products from the given channels; with no product ids,
/// every product of those channels.
#[derive(Debug)]
pub struct UnsubscribeRequest {
    pub product_ids: Option<Vec<String>>,
    pub channels: Vec<Channel>,
}

/// The subscribe envelope for the given product ids and channels.
pub open spec fn subscribe_json(products: Seq<Seq<char>>, channels: Seq<ChannelView>) -> Seq<char> {
    "{\"type\":\"subscribe\",\"product_ids\":"@ + json_string_array(products) + ",\"channels\":"@
        + channel_array_json(channels) + "}"@
}

/// The unsubscribe envelope; the `product_ids` member is left out when there
/// are none to name.
pub open spec fn unsubscribe_json(products: Option<Seq<Seq<char>>>, channels: Seq<ChannelView>) -> Seq<
    char,
> {
    match products {
        Some(p) => "{\"type\":\"unsubscribe\",\"product_ids\":"@ + json_string_array(p)
            + ",\"channels\":"@ + channel_array_json(channels) + "}"@,
        None => "{\"type\":\"unsubscribe\",\"channels\":"@ + channel_array_json(channels) + "}"@,
    }
}

/// The wire form of an outbound envelope.
pub open spec fn request_json(m: RequestMessages) -> Seq<char> {
    match m {
        RequestMessages::Subscribe { req } => subscribe_json(
            texts(req.product_ids@),
            channel_views(req.channels@),
        ),
        RequestMessages::Unsubscribe { req } => unsubscribe_json(
            match req.product_ids {
                Some(p) => Some(texts(p@)),
                None => None,
            },
            channel_views(req.channels@),
        ),
    }
}

/// Appends the subscribe envelope for the given product ids and channels.
pub fn push_subscribe_json(out: &mut String, product_ids: &Vec<String>, channels: &Vec<Channel>)
    ensures
        final(out)@ == old(out)@ + subscribe_json(texts(product_ids@), channel_views(channels@)),
{
    let ghost start = out@;
    out.append("{\"type\":\"subscribe\",\"product_ids\":");
    push_json_string_array(out, product_ids);
    out.append(",\"channels\":");
    push_channel_array(out, channels);
    out.append("}");
    proof {
        assert(out@ =~= start + subscribe_json(texts(product_ids@), channel_views(channels@)));
    }
}

impl SubscribeRequest {
    pub fn new(product_ids: Vec<String>, channels: Vec<Channel>) -> (r: SubscribeRequest)
        ensures
            r.product_ids == product_ids,
            r.channels == channels,
    {
        SubscribeRequest { product_ids, channels }
    }

    /// The wire form of this request.
    pub fn to_json(&self) -> (r: String)
        ensures
            r@ == subscribe_json(texts(self.product_ids@), channel_views(self.channels@)),
    {
        let mut out = String::new();
        push_subscribe_json(&mut out, &self.product_ids, &self.channels);
        proof {
            assert(out@ =~= subscribe_json(texts(self.product_ids@), channel_views(self.channels@)));
        }
        out
    }
}

impl UnsubscribeRequest {
    /// Drops every product of the given channels.
    pub fn unsubscribe_from_channels(channels: Vec<Channel>) -> (r: UnsubscribeRequest)
        ensures
            r.product_ids is None,
            r.channels == channels,
    {
        UnsubscribeRequest { product_ids: None, channels }
    }

    pub fn new(product_ids: Vec<String>, channels: Vec<Channel>) -> (r: UnsubscribeRequest)
        ensures
            r.product_ids == Some(product_ids),
            r.channels == channels,
    {
        UnsubscribeRequest { product_ids: Some(product_ids), channels }
    }

    /// The wire form of this request.
    pub fn to_json(&self) -> (r: String)
        ensures
            r@ == unsubscribe_json(
                match self.product_ids {
                    Some(p) => Some(texts(p@)),
                    None => None,
                },
                channel_views(self.channels@),
            ),
    {
        let mut out = String::new();
        match &self.product_ids {
            Some(p) => {
                out.append("{\"type\":\"unsubscribe\",\"product_ids\":");
                push_json_string_array(&mut out, p);
                out.append(",\"channels\":");
            },
            None => {
                out.append("{\"type\":\"unsubscribe\",\"channels\":");
            },
        }
        push_channel_array(&mut out, &self.channels);
        out.append("}");
        proof {
            assert(out@ =~= unsubscribe_json(
                match self.product_ids {
                    Some(p) => Some(texts(p@)),
                    None => None,
                },
                channel_views(self.channels@),
            ));
        }
        out
    }
}

impl RequestMessages {
    /// The wire form of this envelope.
    pub fn to_json(&self) -> (r: String)
        ensures
            r@ == request_json(*self),
    {
        match self {
            RequestMessages::Subscribe { req } => req.to_json(),
            RequestMessages::Unsubscribe { req } => req.to_json(),
        }
    }
}

} // verus!
