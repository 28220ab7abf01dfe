use vstd::prelude::*;
use vstd::string::StringExecFns;

use crate::decode::{lemma_channel_round_trip, parse_channel};
use crate::json::{
    join_commas, json_array, json_string, json_string_array, json_string_value, lemma_join_commas_push,
    push_json_string, push_json_string_array,
};

verus! {

/// The feed topics that the exchange knows.
#[derive(Clone, Copy, Debug, PartialEq, Eq, Hash, Structural)]
pub enum Channels {
    Heartbeat,
    Status,
    Ticker,
    Level2,
    Matches,
    User,
    Full,
}

/// The wire name of a channel kind.
pub open spec fn channel_name(c: Channels) -> Seq<char> {
    match c {
        Channels::Heartbeat => "heartbeat"@,
        Channels::Status => "status"@,
        Channels::Ticker => "ticker"@,
        Channels::Level2 => "level2"@,
        Channels::Matches => "matches"@,
        Channels::User => "user"@,
        Channels::Full => "full"@,
    }
}

/// The channel kind whose wire name is exactly `t`, if any.
pub open spec fn channel_named(t: Seq<char>) -> Option<Channels> {
    if t == "heartbeat"@ {
        Some(Channels::Heartbeat)
    } else if t == "status"@ {
        Some(Channels::Status)
    } else if t == "ticker"@ {
        Some(Channels::Ticker)
    } else if t == "level2"@ {
        Some(Channels::Level2)
    } else if t == "matches"@ {
        Some(Channels::Matches)
    } else if t == "user"@ {
        Some(Channels::User)
    } else if t == "full"@ {
        Some(Channels::Full)
    } else {
        None
    }
}

/// The channel kind that `t` names, read as is or else in lower case.
pub open spec fn channel_named_any_case(t: Seq<char>) -> Option<Channels> {
    match channel_named(t) {
        Some(c) => Some(c),
        None => channel_named(lower_of(t)),
    }
}

/// What `str::to_lowercase` makes of a string.
pub uninterp spec fn lower_of(s: Seq<char>) -> Seq<char>;

/// Relies on `str::to_lowercase`: the result depends on the characters alone.
#[verifier::external_body]
fn lowercase(s: &str) -> (r: String)
    ensures
        r@ == lower_of(s@),
{
    s.to_lowercase()
}

impl Channels {
    /// Reads a channel kind from its wire name, ignoring letter case: the
    /// name is lower-cased, then looked up.
    pub fn from_str(s: &str) -> (r: Result<Channels, ()>)
        ensures
            r == (match channel_named(lower_of(s@)) {
                Some(c) => Ok(c),
                None => Err(()),
            }),
    {
        let lower = lowercase(s);
        match Channels::from_lowercase(lower.as_str()) {
            Some(c) => Ok(c),
            None => Err(()),
        }
    }

    /// Reads a channel kind from its wire name as it stands, or else from its
    /// lower-cased form; on an exact wire name this skips the lower-casing.
    pub fn from_name(s: &str) -> (r: Option<Channels>)
        ensures
            r == channel_named_any_case(s@),
    {
        match Channels::from_lowercase(s) {
            Some(c) => Some(c),
            None => {
                let lower = lowercase(s);
                Channels::from_lowercase(lower.as_str())
            },
        }
    }

    /// Reads a channel kind from its exact (lower-case) wire name.
    pub fn from_lowercase(t: &str) -> (r: Option<Channels>)
        ensures
            r == channel_named(t@),
    {
        let t = String::from_str(t);
        if t == String::from_str("heartbeat") {
            Some(Channels::Heartbeat)
        } else if t == String::from_str("status") {
            Some(Channels::Status)
        } else if t == String::from_str("ticker") {
            Some(Channels::Ticker)
        } else if t == String::from_str("level2") {
            Some(Channels::Level2)
        } else if t == String::from_str("matches") {
            Some(Channels::Matches)
        } else if t == String::from_str("user") {
            Some(Channels::User)
        } else if t == String::from_str("full") {
            Some(Channels::Full)
        } else {
            None
        }
    }

    /// The wire name of this channel kind.
    pub fn to_string(&self) -> (r: String)
        ensures
            r@ == channel_name(*self),
    {
        match self {
            Channels::Heartbeat => String::from_str("heartbeat"),
            Channels::Status => String::from_str("status"),
            Channels::Ticker => String::from_str("ticker"),
            Channels::Level2 => String::from_str("level2"),
            Channels::Matches => String::from_str("matches"),
            Channels::User => String::from_str("user"),
            Channels::Full => String::from_str("full"),
        }
    }
}

/// A feed topic, optionally restricted to some product ids.
#[derive(Debug, Clone, Eq, Hash)]
pub struct Channel {
    pub name: Channels,
    pub product_ids: Option<Vec<String>>,
}

/// What a `Channel` stands for.
pub struct ChannelView {
    pub name: Channels,
    pub product_ids: Option<Seq<Seq<char>>>,
}

/// The texts of a list of strings.
pub open spec fn texts(v: Seq<String>) -> Seq<Seq<char>> {
    v.map_values(|s: String| s@)
}

impl View for Channel {
    type V = ChannelView;

    open spec fn view(&self) -> ChannelView {
        ChannelView {
            name: self.name,
            product_ids: match self.product_ids {
                Some(ids) => Some(texts(ids@)),
                None => None,
            },
        }
    }
}

/// The JSON form of a channel: its bare name when no product ids restrict
/// it, else an object with the name and the product ids.
pub open spec fn channel_json(c: ChannelView) -> Seq<char> {
    match c.product_ids {
        None => json_string(channel_name(c.name)),
        Some(ids) => "{"@ + json_string("name"@) + ":"@ + json_string(channel_name(c.name)) + ","@
            + json_string("product_ids"@) + ":"@ + json_string_array(ids) + "}"@,
    }
}

/// serde_json reads back each string literal of the channel's JSON form.
pub open spec fn json_strings_read_back(c: ChannelView) -> bool {
    &&& json_string_value(json_string(channel_name(c.name))) == Some(channel_name(c.name))
    &&& c.product_ids matches Some(ids) ==> {
        &&& json_string_value(json_string("name"@)) == Some("name"@)
        &&& json_string_value(json_string("product_ids"@)) == Some("product_ids"@)
        &&& forall|k: int|
            0 <= k < ids.len() ==> json_string_value(json_string(#[trigger] ids[k])) == Some(ids[k])
    }
}

/// Whether two lists of strings hold the same texts in the same order.
pub fn same_strings(a: &Vec<String>, b: &Vec<String>) -> (r: bool)
    ensures
        r == (texts(a@) == texts(b@)),
{
    if a.len() != b.len() {
        proof {
            assert(texts(a@).len() != texts(b@).len());
        }
        return false;
    }
    let mut i: usize = 0;
    while i < a.len()
        invariant
            i <= a.len(),
            a.len() == b.len(),
            forall|j: int| 0 <= j < i ==> a@[j]@ == b@[j]@,
        decreases a.len() - i,
    {
        if a[i] != b[i] {
            proof {
                assert(texts(a@)[i as int] != texts(b@)[i as int]);
            }
            return false;
        }
        i = i + 1;
    }
    proof {
        assert(texts(a@) =~= texts(b@));
    }
    true
}

impl PartialEq for Channel {
    fn eq(&self, other: &Channel) -> (r: bool) {
        if self.name != other.name {
            return false;
        }
        match (&self.product_ids, &other.product_ids) {
            (None, None) => true,
            (Some(a), Some(b)) => same_strings(a, b),
            _ => false,
        }
    }
}

impl vstd::std_specs::cmp::PartialEqSpecImpl for Channel {
    open spec fn obeys_eq_spec() -> bool {
        true
    }

    open spec fn eq_spec(&self, other: &Channel) -> bool {
        self@ == other@
    }
}

impl Channel {
    /// A channel with no product-id restriction.
    pub fn new(channel: Channels) -> (r: Channel)
        ensures
            r@ == (ChannelView { name: channel, product_ids: None }),
    {
        Channel { name: channel, product_ids: None }
    }

    /// A channel restricted to the given product ids.
    pub fn with_product_ids(channel: Channels, product_ids: Vec<String>) -> (r: Channel)
        ensures
            r@ == (ChannelView { name: channel, product_ids: Some(texts(product_ids@)) }),
    {
        Channel { name: channel, product_ids: Some(product_ids) }
    }

    /// One unrestricted channel for each name, in order.
    pub fn from_names(channels: &[Channels]) -> (r: Vec<Channel>)
        ensures
            r.len() == channels@.len(),
            forall|i: int|
                0 <= i < r.len() ==> #[trigger] r@[i]@ == (ChannelView {
                    name: channels@[i],
                    product_ids: None,
                }),
    {
        let mut out: Vec<Channel> = Vec::new();
        let mut i: usize = 0;
        while i < channels.len()
            invariant
                i <= channels@.len(),
                out.len() == i,
                forall|j: int|
                    0 <= j < i ==> #[trigger] out@[j]@ == (ChannelView {
                        name: channels@[j],
                        product_ids: None,
                    }),
            decreases channels@.len() - i,
        {
            out.push(Channel::new(channels[i]));
            i = i + 1;
        }
        out
    }

    /// A copy of this channel.
    pub fn duplicate(&self) -> (r: Channel)
        ensures
            r@ == self@,
    {
        match &self.product_ids {
            None => Channel { name: self.name, product_ids: None },
            Some(ids) => {
                let mut copy: Vec<String> = Vec::new();
                let mut i: usize = 0;
                while i < ids.len()
                    invariant
                        i <= ids.len(),
                        copy.len() == i,
                        forall|j: int| 0 <= j < i ==> #[trigger] copy@[j]@ == ids@[j]@,
                    decreases ids.len() - i,
                {
                    copy.push(ids[i].clone());
                    i = i + 1;
                }
                proof {
                    assert(texts(copy@) =~= texts(ids@));
                }
                Channel { name: self.name, product_ids: Some(copy) }
            },
        }
    }

    /// Appends the JSON form of this channel.
    pub fn push_json(&self, out: &mut String)
        ensures
            final(out)@ == old(out)@ + channel_json(self@),
            json_strings_read_back(self@),
    {
        match &self.product_ids {
            None => {
                let name = self.name.to_string();
                push_json_string(out, name.as_str());
            },
            Some(ids) => {
                let ghost start = out@;
                out.append("{");
                push_json_string(out, "name");
                out.append(":");
                let name = self.name.to_string();
                push_json_string(out, name.as_str());
                out.append(",");
                push_json_string(out, "product_ids");
                out.append(":");
                push_json_string_array(out, ids);
                out.append("}");
                proof {
                    assert(out@ =~= start + channel_json(self@));
                    assert forall|k: int| 0 <= k < texts(ids@).len() implies json_string_value(
                        json_string(#[trigger] texts(ids@)[k]),
                    ) == Some(texts(ids@)[k]) by {
                        assert(texts(ids@)[k] == ids@[k]@);
                    }
                }
            },
        }
    }

    /// The JSON form of this channel, which `from_json` reads back as this
    /// channel.
    pub fn to_json(&self) -> (r: String)
        ensures
            r@ == channel_json(self@),
            parse_channel(r@) == Some(self@),
    {
        let mut out = String::new();
        self.push_json(&mut out);
        proof {
            assert(out@ =~= channel_json(self@));
            lemma_channel_round_trip(self@);
        }
        out
    }
}

/// The views of a list of channels.
pub open spec fn channel_views(v: Seq<Channel>) -> Seq<ChannelView> {
    v.map_values(|c: Channel| c@)
}

/// A JSON array of channels, each in its JSON form.
pub open spec fn channel_array_json(cs: Seq<ChannelView>) -> Seq<char> {
    json_array(cs.map_values(|c: ChannelView| channel_json(c)))
}

/// Appends a JSON array of channels.
pub fn push_channel_array(out: &mut String, channels: &Vec<Channel>)
    ensures
        final(out)@ == old(out)@ + channel_array_json(channel_views(channels@)),
{
    let ghost start = out@;
    let ghost views = channel_views(channels@);
    let ghost parts = views.map_values(|c: ChannelView| channel_json(c));
    proof {
        reveal_strlit("[");
        reveal_strlit(",");
        reveal_strlit("]");
    }
    out.append("[");
    proof {
        assert(parts.subrange(0, 0) =~= Seq::<Seq<char>>::empty());
        assert(out@ =~= start + seq!['['] + join_commas(parts.subrange(0, 0)));
    }
    let mut i: usize = 0;
    while i < channels.len()
        invariant
            i <= channels.len(),
            views == channel_views(channels@),
            parts == views.map_values(|c: ChannelView| channel_json(c)),
            parts.len() == channels.len(),
            out@ == start + seq!['['] + join_commas(parts.subrange(0, i as int)),
            ","@ == seq![','],
        decreases channels.len() - i,
    {
        proof {
            lemma_join_commas_push(parts, i as int);
        }
        if i > 0 {
            out.append(",");
        }
        channels[i].push_json(out);
        proof {
            assert(parts[i as int] == channel_json(channels@[i as int]@));
            if i == 0 {
                assert(out@ =~= start + seq!['['] + join_commas(parts.subrange(0, 1)));
            } else {
                assert(out@ =~= start + seq!['['] + join_commas(parts.subrange(0, i + 1)));
            }
        }
        i = i + 1;
    }
    out.append("]");
    proof {
        assert(parts.subrange(0, channels.len() as int) =~= parts);
        assert(out@ =~= start + channel_array_json(views));
    }
}

} // verus!
