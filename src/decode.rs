use vstd::prelude::*;
use vstd::string::{StrSliceExecFns, StringExecFns};

use crate::channel::{
    channel_json, channel_name, channel_named, channel_named_any_case, json_strings_read_back, texts,
    Channel, ChannelView, Channels,
};
use crate::json::{
    hex_digit, join_commas, json_escape, json_escape_char, json_string, json_string_array, json_string_value,
};
use crate::text::chars_of;

verus! {

/// JSON's insignificant whitespace.
pub open spec fn is_json_ws(c: char) -> bool {
    c == ' ' || c == '\t' || c == '\n' || c == '\r'
}

/// The first position at or after `i` that holds no whitespace.
pub open spec fn skip_ws(t: Seq<char>, i: int) -> int
    decreases t.len() - i,
{
    if 0 <= i < t.len() && is_json_ws(t[i]) {
        skip_ws(t, i + 1)
    } else {
        i
    }
}

/// Scanning the body of a string literal from `j`: the position just past
/// its closing quote, stepping over each backslash and the character after it.
pub open spec fn literal_end(t: Seq<char>, j: int) -> Option<int>
    decreases t.len() + 1 - j,
{
    if !(0 <= j < t.len()) {
        None
    } else if t[j] == '"' {
        Some(j + 1)
    } else if t[j] == '\\' {
        literal_end(t, j + 2)
    } else {
        literal_end(t, j + 1)
    }
}

/// Relies on `serde_json::from_str::<String>`: the text that a JSON string
/// literal decodes to, or `None` where serde_json refuses the literal.
#[verifier::external_body]
fn decode_json_string(lit: &str) -> (r: Option<String>)
    ensures
        r is None <==> json_string_value(lit@) is None,
        r matches Some(v) ==> json_string_value(lit@) == Some(v@),
{
    serde_json::from_str::<String>(lit).ok()
}

/// A string literal at `i`: the text it decodes to and the position past it.
pub open spec fn string_at(t: Seq<char>, i: int) -> Option<(Seq<char>, int)> {
    if 0 <= i < t.len() && t[i] == '"' {
        match literal_end(t, i + 1) {
            Some(e) => match json_string_value(t.subrange(i, e)) {
                Some(v) => Some((v, e)),
                None => None,
            },
            None => None,
        }
    } else {
        None
    }
}

pub proof fn lemma_skip_ws(t: Seq<char>, i: int)
    ensures
        i <= skip_ws(t, i),
        0 <= i <= t.len() ==> skip_ws(t, i) <= t.len(),
        0 <= skip_ws(t, i) < t.len() ==> !is_json_ws(t[skip_ws(t, i)]),
    decreases t.len() - i,
{
    if 0 <= i < t.len() && is_json_ws(t[i]) {
        lemma_skip_ws(t, i + 1);
    }
}

pub proof fn lemma_literal_end(t: Seq<char>, j: int)
    ensures
        literal_end(t, j) matches Some(e) ==> j < e <= t.len(),
    decreases t.len() + 1 - j,
{
    if 0 <= j < t.len() && t[j] != '"' {
        if t[j] == '\\' {
            lemma_literal_end(t, j + 2);
        } else {
            lemma_literal_end(t, j + 1);
        }
    }
}

pub proof fn lemma_string_at(t: Seq<char>, i: int)
    ensures
        string_at(t, i) matches Some((v, e)) ==> 0 <= i < e <= t.len(),
{
    lemma_literal_end(t, i + 1);
}

/// The string elements of an array from `i` on, after those in `acc`, and
/// the position past the closing bracket.
pub open spec fn string_items(t: Seq<char>, i: int, acc: Seq<Seq<char>>) -> Option<(Seq<Seq<char>>, int)>
    decreases t.len() - i,
{
    match string_at(t, i) {
        None => None,
        Some((v, e)) => {
            let k = skip_ws(t, e);
            if k < t.len() && t[k] == ']' {
                Some((acc.push(v), k + 1))
            } else if k < t.len() && t[k] == ',' {
                proof {
                    lemma_string_at(t, i);
                    lemma_skip_ws(t, e);
                    lemma_skip_ws(t, k + 1);
                }
                string_items(t, skip_ws(t, k + 1), acc.push(v))
            } else {
                None
            }
        },
    }
}

pub proof fn lemma_string_items(t: Seq<char>, i: int, acc: Seq<Seq<char>>)
    ensures
        string_items(t, i, acc) matches Some((v, e)) ==> 0 <= i < e <= t.len(),
    decreases t.len() - i,
{
    lemma_string_at(t, i);
    if let Some((v, e)) = string_at(t, i) {
        lemma_skip_ws(t, e);
        let k = skip_ws(t, e);
        if k < t.len() && t[k] == ',' {
            lemma_skip_ws(t, k + 1);
            lemma_string_items(t, skip_ws(t, k + 1), acc.push(v));
        }
    }
}

/// An array of string literals at `i`, and the position past it.
pub open spec fn string_array_at(t: Seq<char>, i: int) -> Option<(Seq<Seq<char>>, int)> {
    if 0 <= i < t.len() && t[i] == '[' {
        let j = skip_ws(t, i + 1);
        if j < t.len() && t[j] == ']' {
            Some((Seq::empty(), j + 1))
        } else {
            string_items(t, j, Seq::empty())
        }
    } else {
        None
    }
}

/// The members of a channel object, seen so far.
pub struct Members {
    pub name: Option<Seq<char>>,
    pub product_ids: Option<Seq<Seq<char>>>,
}

/// One member at `v` (the value's position) with key `key`: only `name` and
/// `product_ids` are known, each at most once.
pub open spec fn member_value(t: Seq<char>, key: Seq<char>, v: int, m: Members) -> Option<(Members, int)> {
    if key == "name"@ {
        if m.name is Some {
            None
        } else {
            match string_at(t, v) {
                Some((n, e)) => Some((Members { name: Some(n), ..m }, e)),
                None => None,
            }
        }
    } else if key == "product_ids"@ {
        if m.product_ids is Some {
            None
        } else {
            match string_array_at(t, v) {
                Some((p, e)) => Some((Members { product_ids: Some(p), ..m }, e)),
                None => None,
            }
        }
    } else {
        None
    }
}

pub proof fn lemma_member_value(t: Seq<char>, key: Seq<char>, v: int, m: Members)
    ensures
        member_value(t, key, v, m) matches Some((m2, e)) ==> 0 <= v < e <= t.len(),
{
    lemma_string_at(t, v);
    if 0 <= v < t.len() && t[v] == '[' {
        lemma_skip_ws(t, v + 1);
        lemma_string_items(t, skip_ws(t, v + 1), Seq::empty());
    }
}

/// The members of an object from `i` on, after those in `m`, and the
/// position past the closing brace.
pub open spec fn members_from(t: Seq<char>, i: int, m: Members) -> Option<(Members, int)>
    decreases t.len() - i,
{
    match string_at(t, i) {
        None => None,
        Some((key, e)) => {
            let c = skip_ws(t, e);
            if c < t.len() && t[c] == ':' {
                match member_value(t, key, skip_ws(t, c + 1), m) {
                    None => None,
                    Some((m2, e2)) => {
                        let k = skip_ws(t, e2);
                        if k < t.len() && t[k] == '}' {
                            Some((m2, k + 1))
                        } else if k < t.len() && t[k] == ',' {
                            proof {
                                lemma_string_at(t, i);
                                lemma_skip_ws(t, e);
                                lemma_skip_ws(t, c + 1);
                                lemma_member_value(t, key, skip_ws(t, c + 1), m);
                                lemma_skip_ws(t, e2);
                                lemma_skip_ws(t, k + 1);
                            }
                            members_from(t, skip_ws(t, k + 1), m2)
                        } else {
                            None
                        }
                    },
                }
            } else {
                None
            }
        },
    }
}

/// The channel that a name and the `product_ids` member make, if the name
/// is known (in any letter case).
pub open spec fn channel_of(name: Seq<char>, ids: Option<Seq<Seq<char>>>) -> Option<ChannelView> {
    match channel_named_any_case(name) {
        Some(c) => Some(ChannelView { name: c, product_ids: ids }),
        None => None,
    }
}

/// A channel value at `i`: a bare name, or an object with a `name` and an
/// optional `product_ids`; and the position past it.
pub open spec fn channel_at(t: Seq<char>, i: int) -> Option<(ChannelView, int)> {
    if 0 <= i < t.len() && t[i] == '"' {
        match string_at(t, i) {
            Some((n, e)) => match channel_of(n, None) {
                Some(c) => Some((c, e)),
                None => None,
            },
            None => None,
        }
    } else if 0 <= i < t.len() && t[i] == '{' {
        let j = skip_ws(t, i + 1);
        let none = Members { name: None, product_ids: None };
        let found = if j < t.len() && t[j] == '}' {
            Some((none, j + 1))
        } else {
            members_from(t, j, none)
        };
        match found {
            Some((Members { name: Some(n), product_ids }, e)) => match channel_of(n, product_ids) {
                Some(c) => Some((c, e)),
                None => None,
            },
            _ => None,
        }
    } else {
        None
    }
}

/// A text that holds one channel value, with whitespace around it at most.
pub open spec fn parse_channel(t: Seq<char>) -> Option<ChannelView> {
    match channel_at(t, skip_ws(t, 0)) {
        Some((c, e)) => if skip_ws(t, e) == t.len() {
            Some(c)
        } else {
            None
        },
        None => None,
    }
}

/// A hexadecimal digit is neither a quote nor a backslash.
proof fn lemma_hex_digit(n: int)
    requires
        0 <= n < 16,
    ensures
        hex_digit(n) != '"',
        hex_digit(n) != '\\',
        !is_json_ws(hex_digit(n)),
{
    reveal_strlit("0123456789abcdef");
}

/// The shapes of an escaped character: itself (neither a quote nor a
/// backslash), a backslash and one more character, or a six-character
/// `\u00XX` escape whose last four characters are neither.
proof fn lemma_escape_chunk(c: char)
    ensures
        ({
            let k = json_escape_char(c);
            ||| (k.len() == 1 && k[0] == c && c != '"' && c != '\\')
            ||| (k.len() == 2 && k[0] == '\\')
            ||| (k.len() == 6 && k[0] == '\\' && forall|m: int|
                2 <= m < 6 ==> #[trigger] k[m] != '"' && k[m] != '\\')
        }),
{
    let k = json_escape_char(c);
    if (c as u32) < 0x20 && c != '\u{8}' && c != '\t' && c != '\n' && c != '\u{c}' && c != '\r' {
        lemma_hex_digit((c as u32) as int / 16);
        lemma_hex_digit((c as u32) as int % 16);
        reveal_strlit("0123456789abcdef");
        assert(k.len() == 6);
        assert forall|m: int| 2 <= m < 6 implies #[trigger] k[m] != '"' && k[m] != '\\' by {
            if m == 2 || m == 3 {
                assert(k[m] == '0');
            }
        }
    }
}

/// The scan of a string literal's body stops just past the quote that
/// follows an escaped text.
proof fn lemma_literal_end_escaped(t: Seq<char>, j: int, x: Seq<char>)
    requires
        0 <= j,
        j + json_escape(x).len() < t.len(),
        t.subrange(j, j + json_escape(x).len()) == json_escape(x),
        t[j + json_escape(x).len()] == '"',
    ensures
        literal_end(t, j) == Some(j + json_escape(x).len() + 1),
    decreases x.len(),
{
    if x.len() > 0 {
        let k = json_escape_char(x[0]);
        let rest = x.drop_first();
        let n = k.len() as int;
        assert(json_escape(x) == k + json_escape(rest));
        lemma_escape_chunk(x[0]);
        assert forall|m: int| 0 <= m < n implies t[j + m] == k[m] by {
            assert(t.subrange(j, j + json_escape(x).len())[m] == json_escape(x)[m]);
        }
        assert(t.subrange(j + n, j + n + json_escape(rest).len()) =~= json_escape(rest)) by {
            assert forall|m: int| 0 <= m < json_escape(rest).len() implies t[j + n + m]
                == json_escape(rest)[m] by {
                assert(t.subrange(j, j + json_escape(x).len())[n + m] == json_escape(x)[n + m]);
            }
        }
        lemma_literal_end_escaped(t, j + n, rest);
        if n == 6 {
            assert(literal_end(t, j + 5) == literal_end(t, j + 6));
            assert(literal_end(t, j + 4) == literal_end(t, j + 5));
            assert(literal_end(t, j + 3) == literal_end(t, j + 4));
            assert(literal_end(t, j + 2) == literal_end(t, j + 3));
        }
    }
}

/// A literal that serde_json reads back to `x` stands at `i`: it decodes to
/// `x` and ends where the literal ends.
pub proof fn lemma_string_at_json(t: Seq<char>, i: int, x: Seq<char>)
    requires
        0 <= i,
        i + json_string(x).len() <= t.len(),
        t.subrange(i, i + json_string(x).len()) == json_string(x),
        json_string_value(json_string(x)) == Some(x),
    ensures
        string_at(t, i) == Some((x, i + json_string(x).len())),
{
    let n = json_escape(x).len() as int;
    let lit = json_string(x);
    assert(lit.len() == n + 2);
    assert(t[i] == lit[0]);
    assert(t[i + n + 1] == lit[n + 1]);
    assert(t.subrange(i + 1, i + 1 + n) =~= json_escape(x)) by {
        assert forall|m: int| 0 <= m < n implies t[i + 1 + m] == json_escape(x)[m] by {
            assert(t.subrange(i, i + lit.len())[1 + m] == lit[1 + m]);
        }
    }
    lemma_literal_end_escaped(t, i + 1, x);
}

/// Parsing the items of an array of string literals that serde_json reads
/// back.
proof fn lemma_string_items_json(t: Seq<char>, p: int, acc: Seq<Seq<char>>, xs: Seq<Seq<char>>)
    requires
        xs.len() >= 1,
        0 <= p,
        p + join_commas(xs.map_values(|s: Seq<char>| json_string(s))).len() < t.len(),
        t.subrange(p, p + join_commas(xs.map_values(|s: Seq<char>| json_string(s))).len())
            == join_commas(xs.map_values(|s: Seq<char>| json_string(s))),
        t[p + join_commas(xs.map_values(|s: Seq<char>| json_string(s))).len()] == ']',
        forall|k: int| 0 <= k < xs.len() ==> json_string_value(json_string(#[trigger] xs[k])) == Some(xs[k]),
    ensures
        string_items(t, p, acc) == Some((
            acc + xs,
            p + join_commas(xs.map_values(|s: Seq<char>| json_string(s))).len() + 1,
        )),
    decreases xs.len(),
{
    let parts = xs.map_values(|s: Seq<char>| json_string(s));
    let body = join_commas(parts);
    let first = json_string(xs[0]);
    assert(parts[0] == first);
    let e = p + first.len();
    assert(json_string_value(json_string(xs[0])) == Some(xs[0]));
    if xs.len() == 1 {
        assert(body == first);
        lemma_string_at_json(t, p, xs[0]);
        assert(acc.push(xs[0]) =~= acc + xs);
    } else {
        let rest = xs.drop_first();
        let rparts = rest.map_values(|s: Seq<char>| json_string(s));
        assert(parts.drop_first() =~= rparts);
        let rbody = join_commas(rparts);
        assert(body == first + seq![','] + rbody);
        assert(t.subrange(p, p + first.len()) =~= first) by {
            assert forall|m: int| 0 <= m < first.len() implies t[p + m] == first[m] by {
                assert(t.subrange(p, p + body.len())[m] == body[m]);
            }
        }
        lemma_string_at_json(t, p, xs[0]);
        assert(t[e] == ',') by {
            assert(t.subrange(p, p + body.len())[first.len() as int] == body[first.len() as int]);
        }
        assert(t.subrange(e + 1, e + 1 + rbody.len()) =~= rbody) by {
            assert forall|m: int| 0 <= m < rbody.len() implies t[e + 1 + m] == rbody[m] by {
                assert(t.subrange(p, p + body.len())[first.len() + 1 + m] == body[first.len() + 1 + m]);
            }
        }
        assert(rparts[0] == json_string(rest[0]));
        assert(rbody.len() >= 1) by {
            if rest.len() == 1 {
            } else {
                assert(rbody == rparts[0] + seq![','] + join_commas(rparts.drop_first()));
            }
        }
        assert(rbody[0] == '"') by {
            if rest.len() == 1 {
                assert(rbody == json_string(rest[0]));
            } else {
                assert(rbody == rparts[0] + seq![','] + join_commas(rparts.drop_first()));
            }
        }
        assert(t[e + 1] == '"') by {
            assert(t.subrange(e + 1, e + 1 + rbody.len())[0] == rbody[0]);
        }
        assert forall|k: int| 0 <= k < rest.len() implies json_string_value(json_string(#[trigger] rest[k]))
            == Some(rest[k]) by {
            assert(rest[k] == xs[k + 1]);
        }
        lemma_string_items_json(t, e + 1, acc.push(xs[0]), rest);
        assert(acc.push(xs[0]) + rest =~= acc + xs);
    }
}

/// Parsing an array of string literals that serde_json reads back.
pub proof fn lemma_string_array_json(t: Seq<char>, i: int, xs: Seq<Seq<char>>)
    requires
        0 <= i,
        i + json_string_array(xs).len() <= t.len(),
        t.subrange(i, i + json_string_array(xs).len()) == json_string_array(xs),
        forall|k: int| 0 <= k < xs.len() ==> json_string_value(json_string(#[trigger] xs[k])) == Some(xs[k]),
    ensures
        string_array_at(t, i) == Some((xs, i + json_string_array(xs).len())),
{
    let a = json_string_array(xs);
    let parts = xs.map_values(|s: Seq<char>| json_string(s));
    let body = join_commas(parts);
    assert(a == seq!['['] + body + seq![']']);
    assert(t[i] == '[') by {
        assert(t.subrange(i, i + a.len())[0] == a[0]);
    }
    assert(t[i + 1 + body.len()] == ']') by {
        assert(t.subrange(i, i + a.len())[1 + body.len() as int] == a[1 + body.len() as int]);
    }
    if xs.len() == 0 {
        assert(body.len() == 0);
    } else {
        assert(t.subrange(i + 1, i + 1 + body.len()) =~= body) by {
            assert forall|m: int| 0 <= m < body.len() implies t[i + 1 + m] == body[m] by {
                assert(t.subrange(i, i + a.len())[1 + m] == a[1 + m]);
            }
        }
        assert(parts[0] == json_string(xs[0]));
        assert(body[0] == '"') by {
            if xs.len() == 1 {
                assert(body == json_string(xs[0]));
            } else {
                assert(body == parts[0] + seq![','] + join_commas(parts.drop_first()));
            }
        }
        assert(t[i + 1] == '"') by {
            assert(t.subrange(i + 1, i + 1 + body.len())[0] == body[0]);
        }
        lemma_string_items_json(t, i + 1, Seq::empty(), xs);
        assert(Seq::<Seq<char>>::empty() + xs =~= xs);
    }
}

/// Each channel kind is read back from its wire name.
proof fn lemma_channel_named_name(n: Channels)
    ensures
        channel_named(channel_name(n)) == Some(n),
{
    reveal_strlit("heartbeat");
    reveal_strlit("status");
    reveal_strlit("ticker");
    reveal_strlit("level2");
    reveal_strlit("matches");
    reveal_strlit("user");
    reveal_strlit("full");
    // The names differ in their first letters.
    assert("heartbeat"@[0] == 'h');
    assert("status"@[0] == 's');
    assert("ticker"@[0] == 't');
    assert("level2"@[0] == 'l');
    assert("matches"@[0] == 'm');
    assert("user"@[0] == 'u');
    assert("full"@[0] == 'f');
}

/// `piece` stands in `t` from `at` on.
pub open spec fn stands_at(t: Seq<char>, at: int, piece: Seq<char>) -> bool {
    &&& 0 <= at
    &&& at + piece.len() <= t.len()
    &&& t.subrange(at, at + piece.len()) == piece
}

proof fn lemma_stands_at_char(t: Seq<char>, at: int, piece: Seq<char>, m: int)
    requires
        stands_at(t, at, piece),
        0 <= m < piece.len(),
    ensures
        t[at + m] == piece[m],
{
    assert(t.subrange(at, at + piece.len())[m] == piece[m]);
}

/// What stands in a text still stands there after more is appended, and the
/// appended text stands at the end.
proof fn lemma_stands_append(a: Seq<char>, b: Seq<char>)
    ensures
        stands_at(a + b, a.len() as int, b),
        forall|i: int, x: Seq<char>| #[trigger] stands_at(a, i, x) ==> stands_at(a + b, i, x),
{
    assert((a + b).subrange(a.len() as int, (a + b).len() as int) =~= b);
    assert forall|i: int, x: Seq<char>| #[trigger] stands_at(a, i, x) implies stands_at(a + b, i, x) by {
        assert((a + b).subrange(i, i + x.len()) =~= a.subrange(i, i + x.len()));
    }
}

/// The object form of a channel, piece by piece.
proof fn lemma_object_layout(name: Seq<char>, ids: Seq<Seq<char>>, t: Seq<char>)
    requires
        t == "{"@ + json_string("name"@) + ":"@ + json_string(name) + ","@ + json_string("product_ids"@)
            + ":"@ + json_string_array(ids) + "}"@,
    ensures
        ({
            let colon1: int = 1 + json_string("name"@).len() as int;
            let comma: int = colon1 + 1 + json_string(name).len();
            let colon2: int = comma + 1 + json_string("product_ids"@).len();
            let brace: int = colon2 + 1 + json_string_array(ids).len();
            &&& t.len() == brace + 1
            &&& t[0] == '{'
            &&& stands_at(t, 1, json_string("name"@))
            &&& t[colon1] == ':'
            &&& stands_at(t, colon1 + 1, json_string(name))
            &&& t[comma] == ','
            &&& stands_at(t, comma + 1, json_string("product_ids"@))
            &&& t[colon2] == ':'
            &&& stands_at(t, colon2 + 1, json_string_array(ids))
            &&& t[brace] == '}'
        }),
{
    reveal_strlit("{");
    reveal_strlit(":");
    reveal_strlit(",");
    reveal_strlit("}");
    let s0 = "{"@;
    let s1 = s0 + json_string("name"@);
    let s2 = s1 + ":"@;
    let s3 = s2 + json_string(name);
    let s4 = s3 + ","@;
    let s5 = s4 + json_string("product_ids"@);
    let s6 = s5 + ":"@;
    let s7 = s6 + json_string_array(ids);
    lemma_stands_append(s0, json_string("name"@));
    lemma_stands_append(s1, ":"@);
    lemma_stands_append(s2, json_string(name));
    lemma_stands_append(s3, ","@);
    lemma_stands_append(s4, json_string("product_ids"@));
    lemma_stands_append(s5, ":"@);
    lemma_stands_append(s6, json_string_array(ids));
    lemma_stands_append(s7, "}"@);
    lemma_stands_at_char(t, s1.len() as int, ":"@, 0);
    lemma_stands_at_char(t, s3.len() as int, ","@, 0);
    lemma_stands_at_char(t, s5.len() as int, ":"@, 0);
    lemma_stands_at_char(t, s7.len() as int, "}"@, 0);
}

/// Parsing the object form of a channel whose strings serde_json reads back.
proof fn lemma_object_parse(c: ChannelView, name: Seq<char>, ids: Seq<Seq<char>>, t: Seq<char>)
    requires
        name == channel_name(c.name),
        c.product_ids == Some(ids),
        json_strings_read_back(c),
        ({
            let colon1: int = 1 + json_string("name"@).len() as int;
            let comma: int = colon1 + 1 + json_string(name).len();
            let colon2: int = comma + 1 + json_string("product_ids"@).len();
            let brace: int = colon2 + 1 + json_string_array(ids).len();
            &&& t.len() == brace + 1
            &&& t[0] == '{'
            &&& stands_at(t, 1, json_string("name"@))
            &&& t[colon1] == ':'
            &&& stands_at(t, colon1 + 1, json_string(name))
            &&& t[comma] == ','
            &&& stands_at(t, comma + 1, json_string("product_ids"@))
            &&& t[colon2] == ':'
            &&& stands_at(t, colon2 + 1, json_string_array(ids))
            &&& t[brace] == '}'
        }),
    ensures
        channel_at(t, 0) == Some((c, t.len() as int)),
{
    reveal_strlit("name");
    reveal_strlit("product_ids");
    lemma_channel_named_name(c.name);
    let k1 = json_string("name"@);
    let k2 = json_string("product_ids"@);
    let a = json_string_array(ids);
    let nlit = json_string(name);
    let colon1: int = 1 + k1.len() as int;
    let comma: int = colon1 + 1 + nlit.len();
    let colon2: int = comma + 1 + k2.len();
    let brace: int = colon2 + 1 + a.len();
    lemma_stands_at_char(t, 1, k1, 0);
    lemma_stands_at_char(t, colon1 + 1, nlit, 0);
    lemma_stands_at_char(t, comma + 1, k2, 0);
    lemma_stands_at_char(t, colon2 + 1, a, 0);
    lemma_string_at_json(t, 1, "name"@);
    lemma_string_at_json(t, colon1 + 1, name);
    lemma_string_at_json(t, comma + 1, "product_ids"@);
    lemma_string_array_json(t, colon2 + 1, ids);
    assert("product_ids"@.len() != "name"@.len());
    let none = Members { name: None, product_ids: None };
    let m2 = Members { name: Some(name), ..none };
    let m3 = Members { product_ids: Some(ids), ..m2 };
    assert(member_value(t, "name"@, colon1 + 1, none) == Some((m2, comma)));
    assert(member_value(t, "product_ids"@, colon2 + 1, m2) == Some((m3, brace)));
    assert(members_from(t, comma + 1, m2) == Some((m3, brace + 1)));
    assert(members_from(t, 1, none) == Some((m3, brace + 1)));
}

/// The JSON form of a channel reads back as that channel.
pub proof fn lemma_channel_round_trip(c: ChannelView)
    requires
        json_strings_read_back(c),
    ensures
        parse_channel(channel_json(c)) == Some(c),
{
    let t = channel_json(c);
    let name = channel_name(c.name);
    lemma_channel_named_name(c.name);
    match c.product_ids {
        None => {
            assert(t.subrange(0, t.len() as int) =~= t);
            lemma_string_at_json(t, 0, name);
        },
        Some(ids) => {
            lemma_object_layout(name, ids, t);
            lemma_object_parse(c, name, ids, t);
        },
    }
}

fn is_ws_char(c: char) -> (r: bool)
    ensures
        r == is_json_ws(c),
{
    c == ' ' || c == '\t' || c == '\n' || c == '\r'
}

fn skip_ws_at(t: &Vec<char>, i: usize) -> (r: usize)
    requires
        i <= t.len(),
    ensures
        r == skip_ws(t@, i as int),
        i <= r <= t.len(),
{
    let mut j = i;
    while j < t.len() && is_ws_char(t[j])
        invariant
            i <= j <= t.len(),
            skip_ws(t@, j as int) == skip_ws(t@, i as int),
        decreases t.len() - j,
    {
        j = j + 1;
    }
    j
}

fn literal_end_at(t: &Vec<char>, j: usize) -> (r: Option<usize>)
    requires
        j <= t.len(),
    ensures
        r matches Some(e) ==> literal_end(t@, j as int) == Some(e as int),
        r is None ==> literal_end(t@, j as int) is None,
{
    let mut k = j;
    while k < t.len()
        invariant
            j <= k <= t.len(),
            literal_end(t@, k as int) == literal_end(t@, j as int),
        decreases t.len() - k,
    {
        if t[k] == '"' {
            return Some(k + 1);
        } else if t[k] == '\\' {
            if t.len() - k <= 2 {
                proof {
                    assert(literal_end(t@, k + 2) is None);
                }
                return None;
            }
            k = k + 2;
        } else {
            k = k + 1;
        }
    }
    None
}

fn string_at_exec(text: &str, t: &Vec<char>, i: usize) -> (r: Option<(String, usize)>)
    requires
        t@ == text@,
        i <= t.len(),
    ensures
        r matches Some((v, e)) ==> string_at(t@, i as int) == Some((v@, e as int)),
        r is None ==> string_at(t@, i as int) is None,
{
    if i < t.len() && t[i] == '"' {
        match literal_end_at(t, i + 1) {
            Some(e) => {
                proof {
                    lemma_literal_end(t@, i + 1);
                }
                let lit = text.substring_char(i, e);
                match decode_json_string(lit) {
                    Some(v) => Some((v, e)),
                    None => None,
                }
            },
            None => None,
        }
    } else {
        None
    }
}

fn string_items_exec(text: &str, t: &Vec<char>, i: usize, acc: Vec<String>) -> (r: Option<(Vec<String>, usize)>)
    requires
        t@ == text@,
        i <= t.len(),
    ensures
        r matches Some((v, e)) ==> string_items(t@, i as int, texts(acc@)) == Some((texts(v@), e as int)),
        r is None ==> string_items(t@, i as int, texts(acc@)) is None,
    decreases t.len() - i,
{
    let mut acc = acc;
    let ghost old_acc = acc@;
    match string_at_exec(text, t, i) {
        None => None,
        Some((v, e)) => {
            proof {
                lemma_string_at(t@, i as int);
            }
            let k = skip_ws_at(t, e);
            let ghost vv = v@;
            acc.push(v);
            proof {
                assert(texts(acc@) =~= texts(old_acc).push(vv));
            }
            if k < t.len() && t[k] == ']' {
                Some((acc, k + 1))
            } else if k < t.len() && t[k] == ',' {
                let n = skip_ws_at(t, k + 1);
                string_items_exec(text, t, n, acc)
            } else {
                None
            }
        },
    }
}

fn string_array_exec(text: &str, t: &Vec<char>, i: usize) -> (r: Option<(Vec<String>, usize)>)
    requires
        t@ == text@,
        i <= t.len(),
    ensures
        r matches Some((v, e)) ==> string_array_at(t@, i as int) == Some((texts(v@), e as int)),
        r is None ==> string_array_at(t@, i as int) is None,
{
    if i < t.len() && t[i] == '[' {
        let j = skip_ws_at(t, i + 1);
        if j < t.len() && t[j] == ']' {
            let empty: Vec<String> = Vec::new();
            proof {
                assert(texts(empty@) =~= Seq::<Seq<char>>::empty());
            }
            Some((empty, j + 1))
        } else {
            let empty: Vec<String> = Vec::new();
            proof {
                assert(texts(empty@) =~= Seq::<Seq<char>>::empty());
            }
            string_items_exec(text, t, j, empty)
        }
    } else {
        None
    }
}

/// The members of a channel object found so far.
struct FoundMembers {
    name: Option<String>,
    product_ids: Option<Vec<String>>,
}

impl View for FoundMembers {
    type V = Members;

    closed spec fn view(&self) -> Members {
        Members {
            name: match self.name {
                Some(n) => Some(n@),
                None => None,
            },
            product_ids: match self.product_ids {
                Some(p) => Some(texts(p@)),
                None => None,
            },
        }
    }
}

fn member_value_exec(text: &str, t: &Vec<char>, key: &String, v: usize, m: FoundMembers) -> (r: Option<(FoundMembers, usize)>)
    requires
        t@ == text@,
        v <= t.len(),
    ensures
        r matches Some((m2, e)) ==> member_value(t@, key@, v as int, m@) == Some((m2@, e as int)),
        r is None ==> member_value(t@, key@, v as int, m@) is None,
{
    if *key == String::from_str("name") {
        if m.name.is_some() {
            None
        } else {
            match string_at_exec(text, t, v) {
                Some((n, e)) => Some((FoundMembers { name: Some(n), product_ids: m.product_ids }, e)),
                None => None,
            }
        }
    } else if *key == String::from_str("product_ids") {
        if m.product_ids.is_some() {
            None
        } else {
            match string_array_exec(text, t, v) {
                Some((p, e)) => Some((FoundMembers { name: m.name, product_ids: Some(p) }, e)),
                None => None,
            }
        }
    } else {
        None
    }
}

fn members_exec(text: &str, t: &Vec<char>, i: usize, m: FoundMembers) -> (r: Option<(FoundMembers, usize)>)
    requires
        t@ == text@,
        i <= t.len(),
    ensures
        r matches Some((m2, e)) ==> members_from(t@, i as int, m@) == Some((m2@, e as int)),
        r is None ==> members_from(t@, i as int, m@) is None,
    decreases t.len() - i,
{
    match string_at_exec(text, t, i) {
        None => None,
        Some((key, e)) => {
            proof {
                lemma_string_at(t@, i as int);
            }
            let c = skip_ws_at(t, e);
            if c < t.len() && t[c] == ':' {
                let v = skip_ws_at(t, c + 1);
                let ghost mv = m@;
                match member_value_exec(text, t, &key, v, m) {
                    None => None,
                    Some((m2, e2)) => {
                        proof {
                            lemma_member_value(t@, key@, v as int, mv);
                        }
                        let k = skip_ws_at(t, e2);
                        if k < t.len() && t[k] == '}' {
                            Some((m2, k + 1))
                        } else if k < t.len() && t[k] == ',' {
                            let n = skip_ws_at(t, k + 1);
                            members_exec(text, t, n, m2)
                        } else {
                            None
                        }
                    },
                }
            } else {
                None
            }
        },
    }
}

fn channel_of_exec(name: &String, ids: Option<Vec<String>>) -> (r: Option<Channel>)
    ensures
        r matches Some(c) ==> channel_of(name@, match ids {
            Some(p) => Some(texts(p@)),
            None => None,
        }) == Some(c@),
        r is None ==> channel_of(name@, match ids {
            Some(p) => Some(texts(p@)),
            None => None,
        }) is None,
{
    match Channels::from_name(name.as_str()) {
        Some(c) => Some(Channel { name: c, product_ids: ids }),
        None => None,
    }
}

fn channel_at_exec(text: &str, t: &Vec<char>, i: usize) -> (r: Option<(Channel, usize)>)
    requires
        t@ == text@,
        i <= t.len(),
    ensures
        r matches Some((c, e)) ==> channel_at(t@, i as int) == Some((c@, e as int)),
        r is None ==> channel_at(t@, i as int) is None,
{
    if i < t.len() && t[i] == '"' {
        match string_at_exec(text, t, i) {
            Some((n, e)) => match channel_of_exec(&n, None) {
                Some(c) => Some((c, e)),
                None => None,
            },
            None => None,
        }
    } else if i < t.len() && t[i] == '{' {
        let j = skip_ws_at(t, i + 1);
        let none = FoundMembers { name: None, product_ids: None };
        let found = if j < t.len() && t[j] == '}' {
            Some((none, j + 1))
        } else {
            members_exec(text, t, j, none)
        };
        match found {
            Some((FoundMembers { name: Some(n), product_ids }, e)) => {
                match channel_of_exec(&n, product_ids) {
                    Some(c) => Some((c, e)),
                    None => None,
                }
            },
            _ => None,
        }
    } else {
        None
    }
}

impl Channel {
    /// Reads a channel from its JSON form: a bare name, or an object with a
    /// `name` and an optional `product_ids` (an array of strings).
    /// Names match in any letter case; whitespace may surround the value.
    pub fn from_json(text: &str) -> (r: Option<Channel>)
        ensures
            r matches Some(c) ==> parse_channel(text@) == Some(c@),
            r is None ==> parse_channel(text@) is None,
    {
        let t = chars_of(text);
        let i = skip_ws_at(&t, 0);
        match channel_at_exec(text, &t, i) {
            Some((c, e)) => {
                proof {
                    lemma_skip_ws(t@, i as int);
                    lemma_string_at(t@, i as int);
                }
                if e <= t.len() && skip_ws_at(&t, e) == t.len() {
                    Some(c)
                } else {
                    None
                }
            },
            None => None,
        }
    }
}

} // verus!
