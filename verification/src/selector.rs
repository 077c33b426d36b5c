//! The line-range selector: the JSON text handed to the external formatting
//! tool, an array of `{"file": ..., "range": [start, end]}` objects, one per
//! range descriptor of the group being flushed.

use vstd::prelude::*;
use vstd::string::StringExecFns;

use crate::hunks::{FileGroup, FileGroupV, RangeDescriptorV};

verus! {

/// What `serde_json` returns when it serializes a string: the JSON string
/// literal, quotes included, with the characters that JSON cannot hold
/// verbatim escaped. The result depends on the characters alone.
pub uninterp spec fn json_str_of(s: Seq<char>) -> Seq<char>;

/// Relies on `serde_json::to_string` on a `&str`: it writes the JSON string
/// literal encoding its argument. Serializing a string slice cannot fail (the
/// writer is an in-memory buffer and a string has no failing `Serialize`
/// step), so the error arm is never taken.
#[verifier::external_body]
fn json_quote(s: &str) -> (r: String)
    ensures
        r@ == json_str_of(s@),
{
    match serde_json::to_string(s) {
        Ok(r) => r,
        Err(_) => String::new(),
    }
}

/// Relies on `String::push`: it appends exactly the given character.
#[verifier::external_body]
fn push_char(s: &mut String, c: char)
    ensures
        final(s)@ == old(s)@ + seq![c],
{
    s.push(c)
}

/// The decimal digit character of `n < 10`.
pub open spec fn dec_digit(n: nat) -> char {
    if n == 0 {
        '0'
    } else if n == 1 {
        '1'
    } else if n == 2 {
        '2'
    } else if n == 3 {
        '3'
    } else if n == 4 {
        '4'
    } else if n == 5 {
        '5'
    } else if n == 6 {
        '6'
    } else if n == 7 {
        '7'
    } else if n == 8 {
        '8'
    } else {
        '9'
    }
}

/// The decimal representation of `n`, without sign or leading zeros (a single
/// `'0'` for zero).
pub open spec fn dec_of(n: nat) -> Seq<char>
    decreases n,
{
    if n < 10 {
        seq![dec_digit(n)]
    } else {
        dec_of(n / 10).push(dec_digit(n % 10))
    }
}

/// The decimal digit character of `d < 10`.
fn digit_char(d: usize) -> (c: char)
    requires
        d < 10,
    ensures
        c == dec_digit(d as nat),
{
    if d == 0 {
        '0'
    } else if d == 1 {
        '1'
    } else if d == 2 {
        '2'
    } else if d == 3 {
        '3'
    } else if d == 4 {
        '4'
    } else if d == 5 {
        '5'
    } else if d == 6 {
        '6'
    } else if d == 7 {
        '7'
    } else if d == 8 {
        '8'
    } else {
        '9'
    }
}

/// Append the decimal representation of `n`.
fn push_decimal(s: &mut String, n: usize)
    ensures
        final(s)@ == old(s)@ + dec_of(n as nat),
    decreases n,
{
    if n >= 10 {
        push_decimal(s, n / 10);
    }
    let c = digit_char(n % 10);
    push_char(s, c);
    proof {
        if n >= 10 {
            assert(dec_of(n as nat) == dec_of(n as nat / 10).push(dec_digit(n as nat % 10)));
            assert(old(s)@ + dec_of(n as nat / 10) + seq![dec_digit(n as nat % 10)] =~= old(s)@
                + dec_of(n as nat));
        } else {
            assert(dec_of(n as nat) == seq![dec_digit(n as nat)]);
        }
    }
}

/// The JSON object encoding one range descriptor.
pub open spec fn descr_json(d: RangeDescriptorV) -> Seq<char> {
    "{\"file\":"@ + json_str_of(d.file) + ",\"range\":["@ + dec_of(d.start) + ","@ + dec_of(d.end)
        + "]}"@
}

/// The bodies of the descriptors' JSON objects, joined by commas.
pub open spec fn selector_items(ds: Seq<RangeDescriptorV>) -> Seq<char>
    decreases ds.len(),
{
    if ds.len() == 0 {
        Seq::empty()
    } else if ds.len() == 1 {
        descr_json(ds[0])
    } else {
        descr_json(ds[0]) + ","@ + selector_items(ds.drop_first())
    }
}

/// The selector for one group: the JSON array of its descriptors' objects.
pub open spec fn selector_of(g: FileGroupV) -> Seq<char> {
    "["@ + selector_items(g.descriptors) + "]"@
}

/// Joining grows at the tail: appending a descriptor to a non-empty run
/// appends a comma and its object.
proof fn lemma_selector_items_push(ds: Seq<RangeDescriptorV>, d: RangeDescriptorV)
    requires
        ds.len() > 0,
    ensures
        selector_items(ds.push(d)) == selector_items(ds) + ","@ + descr_json(d),
    decreases ds.len(),
{
    if ds.len() == 1 {
        assert(ds.push(d)[0] == ds[0]);
        assert(ds.push(d).drop_first() =~= seq![d]);
        assert(selector_items(seq![d]) == descr_json(d));
    } else {
        lemma_selector_items_push(ds.drop_first(), d);
        assert(ds.push(d).drop_first() =~= ds.drop_first().push(d));
        assert(ds.push(d)[0] == ds[0]);
        assert(selector_items(ds.push(d)) == descr_json(ds[0]) + ","@ + selector_items(
            ds.drop_first().push(d),
        ));
        assert(descr_json(ds[0]) + ","@ + (selector_items(ds.drop_first()) + ","@ + descr_json(d))
            =~= (descr_json(ds[0]) + ","@ + selector_items(ds.drop_first())) + ","@ + descr_json(
            d,
        ));
    }
}

/// Append the JSON object of one range descriptor.
fn push_descr(s: &mut String, file: &str, start: usize, end: usize)
    ensures
        final(s)@ == old(s)@ + descr_json(
            RangeDescriptorV { file: file@, start: start as nat, end: end as nat },
        ),
{
    s.append("{\"file\":");
    let quoted = json_quote(file);
    s.append(quoted.as_str());
    s.append(",\"range\":[");
    push_decimal(s, start);
    s.append(",");
    push_decimal(s, end);
    s.append("]}");
    proof {
        let d = RangeDescriptorV { file: file@, start: start as nat, end: end as nat };
        assert(old(s)@ + "{\"file\":"@ + json_str_of(file@) + ",\"range\":["@ + dec_of(
            start as nat,
        ) + ","@ + dec_of(end as nat) + "]}"@ =~= old(s)@ + descr_json(d));
    }
}

/// Build the selector text for one group: a JSON array holding, per
/// descriptor and in order, an object naming the descriptor's file and its
/// inclusive line range as a two-element array.
pub fn selector_json(group: &FileGroup) -> (r: String)
    ensures
        r@ == selector_of(group@),
{
    let ghost ds = group@.descriptors;
    let mut r = String::new();
    r.append("[");
    let mut i: usize = 0;
    proof {
        assert(r@ =~= "["@);
    }
    while i < group.descriptors.len()
        invariant
            i <= group.descriptors@.len(),
            ds == group@.descriptors,
            ds.len() == group.descriptors@.len(),
            r@ == "["@ + selector_items(ds.take(i as int)),
        decreases group.descriptors@.len() - i,
    {
        let d = &group.descriptors[i];
        proof {
            assert(ds.take(i as int + 1) =~= ds.take(i as int).push(ds[i as int]));
            assert(ds[i as int] == group.descriptors@[i as int]@);
        }
        if i > 0 {
            r.append(",");
            push_descr(&mut r, d.file.as_str(), d.start, d.end);
            proof {
                assert(ds.take(i as int).len() > 0);
                lemma_selector_items_push(ds.take(i as int), ds[i as int]);
                assert(r@ =~= "["@ + selector_items(ds.take(i as int + 1)));
            }
        } else {
            push_descr(&mut r, d.file.as_str(), d.start, d.end);
            proof {
                assert(ds.take(0) =~= Seq::<RangeDescriptorV>::empty());
                assert(selector_items(seq![ds[0]]) == descr_json(ds[0]));
                assert(ds.take(1) =~= seq![ds[0]]);
                assert(r@ =~= "["@ + selector_items(ds.take(1)));
            }
        }
        i = i + 1;
    }
    r.append("]");
    proof {
        assert(ds.take(ds.len() as int) =~= ds);
        assert(r@ =~= selector_of(group@));
    }
    r
}

} // verus!
