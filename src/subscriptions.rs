use vstd::prelude::*;

use crate::channel::{channel_views, texts, Channel, ChannelView};
use crate::request::{push_subscribe_json, subscribe_json};

verus! {

/// `base` followed by each element of `added` that it does not hold yet, in
/// the order of `added`.
pub open spec fn merged<T>(base: Seq<T>, added: Seq<T>) -> Seq<T>
    decreases added.len(),
{
    if added.len() == 0 {
        base
    } else {
        let m = merged(base, added.drop_last());
        if m.contains(added.last()) {
            m
        } else {
            m.push(added.last())
        }
    }
}

/// The elements of `base` that `gone` does not hold, in their order.
pub open spec fn without<T>(base: Seq<T>, gone: Seq<T>) -> Seq<T>
    decreases base.len(),
{
    if base.len() == 0 {
        base
    } else {
        let w = without(base.drop_last(), gone);
        if gone.contains(base.last()) {
            w
        } else {
            w.push(base.last())
        }
    }
}

/// Merging holds exactly the elements of both sequences, and adds no
/// duplicate to a sequence that has none.
pub proof fn lemma_merged<T>(base: Seq<T>, added: Seq<T>)
    ensures
        merged(base, added).to_set() == base.to_set().union(added.to_set()),
        base.no_duplicates() ==> merged(base, added).no_duplicates(),
    decreases added.len(),
{
    if added.len() == 0 {
        assert(added.to_set() =~= Set::empty());
        assert(base.to_set().union(added.to_set()) =~= base.to_set());
    } else {
        let rest = added.drop_last();
        let x = added.last();
        lemma_merged(base, rest);
        let m = merged(base, rest);
        assert(added =~= rest.push(x));
        assert(added.to_set() =~= rest.to_set().insert(x)) by {
            assert forall|y: T| added.to_set().contains(y) <==> rest.to_set().insert(x).contains(y) by {
                if added.contains(y) {
                    let i = choose|i: int| 0 <= i < added.len() && added[i] == y;
                    if i < rest.len() {
                        assert(rest[i] == y);
                    }
                }
                if rest.contains(y) {
                    let i = choose|i: int| 0 <= i < rest.len() && rest[i] == y;
                    assert(added[i] == y);
                }
                if y == x {
                    assert(added[added.len() - 1] == y);
                }
            }
        }
        if m.contains(x) {
            assert(m.to_set().contains(x));
            assert(base.to_set().union(added.to_set()) =~= m.to_set());
        } else {
            assert(m.push(x).to_set() =~= m.to_set().insert(x)) by {
                assert forall|y: T| m.push(x).contains(y) <==> m.to_set().insert(x).contains(y) by {
                    if m.push(x).contains(y) {
                        let i = choose|i: int| 0 <= i < m.push(x).len() && m.push(x)[i] == y;
                        if i < m.len() {
                            assert(m[i] == y);
                        }
                    }
                    if m.contains(y) {
                        let i = choose|i: int| 0 <= i < m.len() && m[i] == y;
                        assert(m.push(x)[i] == y);
                    }
                    if y == x {
                        assert(m.push(x)[m.len() as int] == y);
                    }
                }
            }
            assert(base.to_set().union(added.to_set()) =~= m.push(x).to_set());
            if base.no_duplicates() {
                assert forall|i: int, j: int|
                    0 <= i < m.push(x).len() && 0 <= j < m.push(x).len() && i != j implies m.push(
                        x,
                    )[i] != m.push(x)[j] by {
                    if i == m.len() {
                        assert(m[j] == m.push(x)[j]);
                    } else if j == m.len() {
                        assert(m[i] == m.push(x)[i]);
                    }
                }
            }
        }
    }
}

/// Removal holds exactly the elements of `base` that `gone` does not hold,
/// and adds no duplicate to a sequence that has none.
pub proof fn lemma_without<T>(base: Seq<T>, gone: Seq<T>)
    ensures
        without(base, gone).to_set() == base.to_set().difference(gone.to_set()),
        base.no_duplicates() ==> without(base, gone).no_duplicates(),
        forall|x: T| #[trigger] without(base, gone).contains(x) ==> base.contains(x),
    decreases base.len(),
{
    if base.len() == 0 {
        assert(base.to_set() =~= Set::empty());
        assert(without(base, gone).to_set() =~= base.to_set().difference(gone.to_set()));
    } else {
        let rest = base.drop_last();
        let x = base.last();
        lemma_without(rest, gone);
        let w = without(rest, gone);
        assert(base =~= rest.push(x));
        assert forall|y: T| #[trigger] rest.contains(y) implies base.contains(y) by {
            let i = choose|i: int| 0 <= i < rest.len() && rest[i] == y;
            assert(base[i] == y);
        }
        if gone.contains(x) {
            assert forall|y: T|
                base.to_set().difference(gone.to_set()).contains(y) implies w.to_set().contains(y) by {
                if base.contains(y) && !gone.contains(y) {
                    let i = choose|i: int| 0 <= i < base.len() && base[i] == y;
                    if i < rest.len() {
                        assert(rest[i] == y);
                    }
                }
            }
            assert(w.to_set() =~= base.to_set().difference(gone.to_set()));
        } else {
            let wp = w.push(x);
            assert forall|y: T| #[trigger] wp.contains(y) implies base.contains(y) && !gone.contains(y) by {
                let i = choose|i: int| 0 <= i < wp.len() && wp[i] == y;
                if i < w.len() {
                    assert(w[i] == y);
                    assert(w.contains(y));
                    assert(w.to_set().contains(y));
                } else {
                    assert(base[base.len() - 1] == y);
                }
            }
            assert forall|y: T| base.contains(y) && !gone.contains(y) implies #[trigger] wp.contains(y) by {
                let i = choose|i: int| 0 <= i < base.len() && base[i] == y;
                if i < rest.len() {
                    assert(rest[i] == y);
                    assert(rest.contains(y));
                    assert(w.to_set().contains(y));
                    assert(w.contains(y));
                    let k = choose|k: int| 0 <= k < w.len() && w[k] == y;
                    assert(wp[k] == y);
                } else {
                    assert(wp[w.len() as int] == y);
                }
            }
            assert(wp.to_set() =~= base.to_set().difference(gone.to_set()));
            if base.no_duplicates() {
                assert(rest.no_duplicates()) by {
                    assert forall|i: int, j: int|
                        0 <= i < rest.len() && 0 <= j < rest.len() && i != j implies rest[i]
                        != rest[j] by {
                        assert(rest[i] == base[i] && rest[j] == base[j]);
                    }
                }
                assert(!w.contains(x)) by {
                    if w.contains(x) {
                        assert(rest.contains(x));
                        let i = choose|i: int| 0 <= i < rest.len() && rest[i] == x;
                        assert(base[i] == base[base.len() - 1]);
                    }
                }
                assert forall|i: int, j: int|
                    0 <= i < wp.len() && 0 <= j < wp.len() && i != j implies wp[i] != wp[j] by {
                    if i == w.len() {
                        assert(w[j] == wp[j]);
                    } else if j == w.len() {
                        assert(w[i] == wp[i]);
                    }
                }
            }
        }
    }
}

/// Whether the list holds the text `s`.
pub fn contains_text(v: &Vec<String>, s: &String) -> (r: bool)
    ensures
        r == texts(v@).contains(s@),
{
    let mut i: usize = 0;
    while i < v.len()
        invariant
            i <= v.len(),
            forall|j: int| 0 <= j < i ==> v@[j]@ != s@,
        decreases v.len() - i,
    {
        if v[i] == *s {
            proof {
                assert(texts(v@)[i as int] == s@);
            }
            return true;
        }
        i = i + 1;
    }
    proof {
        if texts(v@).contains(s@) {
            let k = choose|k: int| 0 <= k < texts(v@).len() && texts(v@)[k] == s@;
            assert(v@[k]@ == s@);
        }
    }
    false
}

/// Whether the list holds a channel equal to `c`.
pub fn contains_channel(v: &Vec<Channel>, c: &Channel) -> (r: bool)
    ensures
        r == channel_views(v@).contains(c@),
{
    let mut i: usize = 0;
    while i < v.len()
        invariant
            i <= v.len(),
            forall|j: int| 0 <= j < i ==> v@[j]@ != c@,
        decreases v.len() - i,
    {
        if v[i] == *c {
            proof {
                assert(channel_views(v@)[i as int] == c@);
            }
            return true;
        }
        i = i + 1;
    }
    proof {
        if channel_views(v@).contains(c@) {
            let k = choose|k: int| 0 <= k < channel_views(v@).len() && channel_views(v@)[k] == c@;
            assert(v@[k]@ == c@);
        }
    }
    false
}

/// The accumulated product ids and channels that the worker keeps
/// subscribed, each without duplicates.
#[derive(Debug)]
pub struct SubscriptionSet {
    pub product_ids: Vec<String>,
    pub channels: Vec<Channel>,
}

/// What a `SubscriptionSet` stands for.
pub struct SubscriptionView {
    pub products: Seq<Seq<char>>,
    pub channels: Seq<ChannelView>,
}

impl View for SubscriptionSet {
    type V = SubscriptionView;

    open spec fn view(&self) -> SubscriptionView {
        SubscriptionView { products: texts(self.product_ids@), channels: channel_views(self.channels@) }
    }
}

impl SubscriptionView {
    /// Neither list holds an entry twice.
    pub open spec fn well_formed(self) -> bool {
        self.products.no_duplicates() && self.channels.no_duplicates()
    }

    /// The set after subscribing to the given product ids and channels.
    pub open spec fn add(self, products: Seq<Seq<char>>, channels: Seq<ChannelView>) -> SubscriptionView {
        SubscriptionView {
            products: merged(self.products, products),
            channels: merged(self.channels, channels),
        }
    }

    /// The set after unsubscribing from the given product ids and channels.
    pub open spec fn remove(self, products: Seq<Seq<char>>, channels: Seq<ChannelView>) -> SubscriptionView {
        SubscriptionView {
            products: without(self.products, products),
            channels: without(self.channels, channels),
        }
    }
}

/// Adding keeps a set well formed.
pub proof fn lemma_add_well_formed(s: SubscriptionView, p: Seq<Seq<char>>, c: Seq<ChannelView>)
    ensures
        s.well_formed() ==> s.add(p, c).well_formed(),
{
    lemma_merged(s.products, p);
    lemma_merged(s.channels, c);
}

/// Removing keeps a set well formed.
pub proof fn lemma_remove_well_formed(s: SubscriptionView, p: Seq<Seq<char>>, c: Seq<ChannelView>)
    ensures
        s.well_formed() ==> s.remove(p, c).well_formed(),
{
    lemma_without(s.products, p);
    lemma_without(s.channels, c);
}

impl SubscriptionSet {
    /// An empty set.
    pub fn new() -> (r: SubscriptionSet)
        ensures
            r@.products.len() == 0,
            r@.channels.len() == 0,
            r@.well_formed(),
    {
        SubscriptionSet { product_ids: Vec::new(), channels: Vec::new() }
    }

    /// Adds the product ids and channels that the set does not hold yet.
    pub fn append(&mut self, product_ids: &Vec<String>, channels: &Vec<Channel>)
        ensures
            final(self)@ == old(self)@.add(texts(product_ids@), channel_views(channels@)),
    {
        let ghost start = self@;
        let ghost added = texts(product_ids@);
        let mut i: usize = 0;
        proof {
            assert(added.subrange(0, 0).len() == 0);
        }
        while i < product_ids.len()
            invariant
                i <= product_ids.len(),
                added == texts(product_ids@),
                texts(self.product_ids@) == merged(start.products, added.subrange(0, i as int)),
                channel_views(self.channels@) == start.channels,
            decreases product_ids.len() - i,
        {
            proof {
                assert(added.subrange(0, i + 1).drop_last() =~= added.subrange(0, i as int));
                assert(added.subrange(0, i + 1).last() == product_ids@[i as int]@);
            }
            if !contains_text(&self.product_ids, &product_ids[i]) {
                let ghost old_ids = self.product_ids@;
                self.product_ids.push(product_ids[i].clone());
                proof {
                    assert(texts(self.product_ids@) =~= texts(old_ids).push(product_ids@[i as int]@));
                }
            }
            i = i + 1;
        }
        proof {
            assert(added.subrange(0, product_ids.len() as int) =~= added);
        }
        let ghost cadded = channel_views(channels@);
        let mut k: usize = 0;
        proof {
            assert(cadded.subrange(0, 0).len() == 0);
        }
        while k < channels.len()
            invariant
                k <= channels.len(),
                cadded == channel_views(channels@),
                texts(self.product_ids@) == merged(start.products, added),
                channel_views(self.channels@) == merged(start.channels, cadded.subrange(0, k as int)),
            decreases channels.len() - k,
        {
            proof {
                assert(cadded.subrange(0, k + 1).drop_last() =~= cadded.subrange(0, k as int));
                assert(cadded.subrange(0, k + 1).last() == channels@[k as int]@);
            }
            if !contains_channel(&self.channels, &channels[k]) {
                let ghost old_chans = self.channels@;
                self.channels.push(channels[k].duplicate());
                proof {
                    assert(channel_views(self.channels@) =~= channel_views(old_chans).push(
                        channels@[k as int]@,
                    ));
                }
            }
            k = k + 1;
        }
        proof {
            assert(cadded.subrange(0, channels.len() as int) =~= cadded);
        }
    }

    /// Drops the given product ids and channels from the set.
    pub fn remove(&mut self, product_ids: &Vec<String>, channels: &Vec<Channel>)
        ensures
            final(self)@ == old(self)@.remove(texts(product_ids@), channel_views(channels@)),
    {
        let ghost start = self@;
        let ghost gone = texts(product_ids@);
        let mut kept: Vec<String> = Vec::new();
        let mut i: usize = 0;
        proof {
            assert(start.products.subrange(0, 0).len() == 0);
        }
        while i < self.product_ids.len()
            invariant
                i <= self.product_ids.len(),
                gone == texts(product_ids@),
                self@ == start,
                texts(kept@) == without(start.products.subrange(0, i as int), gone),
            decreases self.product_ids.len() - i,
        {
            proof {
                assert(start.products.subrange(0, i + 1).drop_last() =~= start.products.subrange(
                    0,
                    i as int,
                ));
                assert(start.products.subrange(0, i + 1).last() == self.product_ids@[i as int]@);
            }
            if !contains_text(product_ids, &self.product_ids[i]) {
                let ghost old_kept = kept@;
                kept.push(self.product_ids[i].clone());
                proof {
                    assert(texts(kept@) =~= texts(old_kept).push(self.product_ids@[i as int]@));
                }
            }
            i = i + 1;
        }
        proof {
            assert(start.products.subrange(0, self.product_ids.len() as int) =~= start.products);
        }
        let ghost cgone = channel_views(channels@);
        let mut kept_channels: Vec<Channel> = Vec::new();
        let mut k: usize = 0;
        proof {
            assert(start.channels.subrange(0, 0).len() == 0);
        }
        while k < self.channels.len()
            invariant
                k <= self.channels.len(),
                cgone == channel_views(channels@),
                self@ == start,
                channel_views(kept_channels@) == without(start.channels.subrange(0, k as int), cgone),
            decreases self.channels.len() - k,
        {
            proof {
                assert(start.channels.subrange(0, k + 1).drop_last() =~= start.channels.subrange(
                    0,
                    k as int,
                ));
                assert(start.channels.subrange(0, k + 1).last() == self.channels@[k as int]@);
            }
            if !contains_channel(channels, &self.channels[k]) {
                let ghost old_kept = kept_channels@;
                kept_channels.push(self.channels[k].duplicate());
                proof {
                    assert(channel_views(kept_channels@) =~= channel_views(old_kept).push(
                        self.channels@[k as int]@,
                    ));
                }
            }
            k = k + 1;
        }
        proof {
            assert(start.channels.subrange(0, self.channels.len() as int) =~= start.channels);
        }
        self.product_ids = kept;
        self.channels = kept_channels;
    }

    /// The subscribe envelope that names every product id and channel of the
    /// set.
    pub fn subscribe_text(&self) -> (r: String)
        ensures
            r@ == subscribe_json(self@.products, self@.channels),
    {
        let mut out = String::new();
        push_subscribe_json(&mut out, &self.product_ids, &self.channels);
        proof {
            assert(out@ =~= subscribe_json(self@.products, self@.channels));
        }
        out
    }
}

} // verus!
