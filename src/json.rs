use vstd::prelude::*;

verus! {

/// A lower-case hexadecimal digit, for `0 <= n < 16`.
pub open spec fn hex_digit(n: int) -> char {
    "0123456789abcdef"@[n]
}

/// How one character stands inside a JSON string literal: the quote, the
/// backslash and the control characters are escaped, the rest stands as is.
pub open spec fn json_escape_char(c: char) -> Seq<char> {
    if c == '"' {
        seq!['\\', '"']
    } else if c == '\\' {
        seq!['\\', '\\']
    } else if c == '\u{8}' {
        seq!['\\', 'b']
    } else if c == '\t' {
        seq!['\\', 't']
    } else if c == '\n' {
        seq!['\\', 'n']
    } else if c == '\u{c}' {
        seq!['\\', 'f']
    } else if c == '\r' {
        seq!['\\', 'r']
    } else if (c as u32) < 0x20 {
        seq!['\\', 'u', '0', '0', hex_digit((c as u32) as int / 16), hex_digit((c as u32) as int % 16)]
    } else {
        seq![c]
    }
}

/// The escaped body of a JSON string literal.
pub open spec fn json_escape(s: Seq<char>) -> Seq<char>
    decreases s.len(),
{
    if s.len() == 0 {
        Seq::empty()
    } else {
        json_escape_char(s[0]) + json_escape(s.drop_first())
    }
}

/// A JSON string literal holding `s`.
pub open spec fn json_string(s: Seq<char>) -> Seq<char> {
    seq!['"'] + json_escape(s) + seq!['"']
}

/// The given texts, separated by commas.
pub open spec fn join_commas(parts: Seq<Seq<char>>) -> Seq<char>
    decreases parts.len(),
{
    if parts.len() == 0 {
        Seq::empty()
    } else if parts.len() == 1 {
        parts[0]
    } else {
        parts[0] + seq![','] + join_commas(parts.drop_first())
    }
}

/// What `serde_json` decodes a JSON string literal to; `None` where it
/// refuses the literal.
pub uninterp spec fn json_string_value(lit: Seq<char>) -> Option<Seq<char>>;

/// Appending one more text to a non-empty comma-separated list.
pub proof fn lemma_join_commas_append(parts: Seq<Seq<char>>, x: Seq<char>)
    requires
        parts.len() >= 1,
    ensures
        join_commas(parts.push(x)) == join_commas(parts) + seq![','] + x,
    decreases parts.len(),
{
    if parts.len() == 1 {
        assert(parts.push(x).drop_first() =~= seq![x]);
        assert(join_commas(seq![x]) == x);
        assert(parts.push(x)[0] == parts[0]);
        assert(join_commas(parts.push(x)) =~= join_commas(parts) + seq![','] + x);
    } else {
        assert(parts.push(x)[0] == parts[0]);
        assert(parts.push(x).drop_first() =~= parts.drop_first().push(x));
        lemma_join_commas_append(parts.drop_first(), x);
        assert(join_commas(parts.push(x)) =~= join_commas(parts) + seq![','] + x);
    }
}

/// A JSON array whose elements are written as `parts`.
pub open spec fn json_array(parts: Seq<Seq<char>>) -> Seq<char> {
    seq!['['] + join_commas(parts) + seq![']']
}

/// A JSON array of string literals.
pub open spec fn json_string_array(items: Seq<Seq<char>>) -> Seq<char> {
    json_array(items.map_values(|s: Seq<char>| json_string(s)))
}

/// Extending a comma-separated list by one element.
pub proof fn lemma_join_commas_push(parts: Seq<Seq<char>>, i: int)
    requires
        0 <= i < parts.len(),
    ensures
        join_commas(parts.subrange(0, i + 1)) == if i == 0 {
            parts[0]
        } else {
            join_commas(parts.subrange(0, i)) + seq![','] + parts[i]
        },
{
    assert(parts.subrange(0, i + 1) =~= parts.subrange(0, i).push(parts[i]));
    if i > 0 {
        lemma_join_commas_append(parts.subrange(0, i), parts[i]);
    } else {
        assert(parts.subrange(0, 1) =~= seq![parts[0]]);
    }
}

/// Relies on `serde_json::to_string` for a `&str`: it writes a JSON string
/// literal, escaping `"`, `\` and the control characters as `json_escape_char`
/// states (serde_json's `format_escaped_str`; writing into a `Vec` cannot fail),
/// and `serde_json::from_str::<String>` reads that literal back (its
/// `parse_escape` reads each of those escapes).
#[verifier::external_body]
fn json_string_literal(s: &str) -> (r: String)
    ensures
        r@ == json_string(s@),
        json_string_value(r@) == Some(s@),
{
    serde_json::to_string(s).unwrap_or_default()
}

/// Appends a JSON string literal holding `s`.
pub fn push_json_string(out: &mut String, s: &str)
    ensures
        final(out)@ == old(out)@ + json_string(s@),
        json_string_value(json_string(s@)) == Some(s@),
{
    let lit = json_string_literal(s);
    out.append(lit.as_str());
}

/// Appends a JSON array of string literals.
pub fn push_json_string_array(out: &mut String, items: &Vec<String>)
    ensures
        final(out)@ == old(out)@ + json_string_array(items@.map_values(|s: String| s@)),
        forall|k: int|
            0 <= k < items.len() ==> json_string_value(json_string(#[trigger] items@[k]@)) == Some(
                items@[k]@,
            ),
{
    let ghost start = out@;
    let ghost views = items@.map_values(|s: String| s@);
    let ghost parts = views.map_values(|s: Seq<char>| json_string(s));
    proof {
        reveal_strlit("[");
        reveal_strlit(",");
        reveal_strlit("]");
    }
    out.append("[");
    proof {
        assert(parts.subrange(0, 0) =~= Seq::<Seq<char>>::empty());
        assert(out@ =~= start + seq!['['] + join_commas(parts.subrange(0, 0)));
    }
    let mut i: usize = 0;
    while i < items.len()
        invariant
            i <= items.len(),
            views == items@.map_values(|s: String| s@),
            parts == views.map_values(|s: Seq<char>| json_string(s)),
            out@ == start + seq!['['] + join_commas(parts.subrange(0, i as int)),
            parts.len() == items.len(),
            ","@ == seq![','],
            forall|k: int|
                0 <= k < i ==> json_string_value(json_string(#[trigger] items@[k]@)) == Some(
                    items@[k]@,
                ),
        decreases items.len() - i,
    {
        proof {
            lemma_join_commas_push(parts, i as int);
        }
        if i > 0 {
            out.append(",");
        }
        push_json_string(out, items[i].as_str());
        proof {
            assert(parts[i as int] == json_string(items@[i as int]@));
            if i == 0 {
                assert(out@ =~= start + seq!['['] + join_commas(parts.subrange(0, 1)));
            } else {
                assert(out@ =~= start + seq!['['] + join_commas(parts.subrange(0, i + 1)));
            }
        }
        i = i + 1;
    }
    out.append("]");
    proof {
        assert(parts.subrange(0, items.len() as int) =~= parts);
        assert(out@ =~= start + json_string_array(views));
    }
}

} // verus!
