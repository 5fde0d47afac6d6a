//! What the chaos proxy's decisions amount to, stated over the JSON they
//! read and the outcomes they give.

use vstd::prelude::*;
use vstd::utf8::{decode_utf8, encode_utf8, is_ascii_chars, valid_utf8};

use crate::chaos::{
    array_hex_pointers, child_path, coin_decides, corruption_pool, hex_pointers, is_committed, is_log_data,
    object_hex_pointers, scramble_may_fail_at, scrambled_at, spec_request_method, target_is_flippable,
    three_flips, ChaosOutcome,
};
use crate::json::{first_key_index, node_at, pointer_location, tree_of, update_at, JsonTree, JsonValue};
use crate::text::decimal_chars;

verus! {

/// Only the coin 0 corrupts: for a receipts request, any other coin passes
/// the response through unchanged, and 0 always attempts a scramble (never
/// passes it through), so of the `rate` coins exactly one corrupts.
pub proof fn law_only_coin_zero_corrupts(coin: u64, before: JsonValue, outcome: ChaosOutcome, after: JsonValue)
    requires
        coin_decides(coin, before, outcome, after),
    ensures
        coin != 0 ==> outcome == ChaosOutcome::PassedThrough && after == before,
        coin == 0 ==> !(outcome is PassedThrough) && !(outcome is Untouched),
{
}

/// Two texts are equal exactly when their UTF-8 encodings are.
pub proof fn lemma_encode_utf8_injective(a: Seq<char>, b: Seq<char>)
    ensures
        encode_utf8(a) == encode_utf8(b) <==> a == b,
{
    vstd::utf8::encode_utf8_decode_utf8(a);
    vstd::utf8::encode_utf8_decode_utf8(b);
}

/// The method read from a request is the string held by its first member
/// named `method`, wherever that member stands among the others.
pub proof fn law_method_is_first_method_member(
    request: JsonValue,
    method: Seq<char>,
    members: Seq<(Seq<char>, JsonTree)>,
    k: int,
    s: Seq<char>,
)
    requires
        method == spec_request_method(tree_of(request)),
        tree_of(request) == JsonTree::Object(members),
        0 <= k < members.len(),
        members[k] == ("method"@, JsonTree::String(s)),
        forall|j: int| 0 <= j < k ==> members[j].0 != "method"@,
    ensures
        method == s,
{
    let key = encode_utf8("method"@);
    crate::json::lemma_first_key_index(members, key);
    lemma_encode_utf8_injective(members[k].0, "method"@);
    match first_key_index(members, key) {
        Some(f) => {
            lemma_encode_utf8_injective(members[f].0, "method"@);
            if f < k {
                assert(members[f].0 != "method"@);
            }
            if f > k {
                assert(encode_utf8(members[k].0) != key);
            }
        },
        None => {
            assert(encode_utf8(members[k].0) != key);
        },
    }
}

/// The method read is `?` when the request is no object, has no member named
/// `method`, or its first such member does not hold a string.
pub proof fn law_method_defaults_to_question_mark(request: JsonValue, method: Seq<char>)
    requires
        method == spec_request_method(tree_of(request)),
        !(tree_of(request) matches JsonTree::Object(ms) && exists|k: int|
            0 <= k < ms.len() && ms[k].0 == "method"@ && ms[k].1 is String && forall|j: int|
                0 <= j < k ==> #[trigger] ms[j].0 != "method"@),
    ensures
        method == "?"@,
{
    if let JsonTree::Object(ms) = tree_of(request) {
        let key = encode_utf8("method"@);
        crate::json::lemma_first_key_index(ms, key);
        if let Some(f) = first_key_index(ms, key) {
            lemma_encode_utf8_injective(ms[f].0, "method"@);
            assert forall|j: int| 0 <= j < f implies #[trigger] ms[j].0 != "method"@ by {
                lemma_encode_utf8_injective(ms[j].0, "method"@);
            }
        }
    }
}

/// Keeps a collected entry whose pointer leads to log data.
pub open spec fn log_data_entry() -> spec_fn((Seq<u8>, nat)) -> bool {
    |e: (Seq<u8>, nat)| is_log_data(e.0)
}

/// Keeps a collected entry whose pointer leads to a committed value.
pub open spec fn committed_entry() -> spec_fn((Seq<u8>, nat)) -> bool {
    |e: (Seq<u8>, nat)| is_committed(e.0)
}

/// The pointer of a collected entry.
pub open spec fn entry_pointer() -> spec_fn((Seq<u8>, nat)) -> Seq<u8> {
    |e: (Seq<u8>, nat)| e.0
}

proof fn lemma_pool_parts(ps: Seq<(Seq<u8>, nat)>)
    ensures
        crate::chaos::log_data_paths(ps) == ps.filter(log_data_entry()).map_values(entry_pointer()),
        crate::chaos::committed_paths(ps) == ps.filter(committed_entry()).map_values(entry_pointer()),
    decreases ps.len(),
{
    reveal(Seq::filter);
    if ps.len() == 0 {
        assert(ps.filter(log_data_entry()).map_values(entry_pointer()) =~= Seq::<Seq<u8>>::empty());
        assert(ps.filter(committed_entry()).map_values(entry_pointer()) =~= Seq::<Seq<u8>>::empty());
    } else {
        lemma_pool_parts(ps.drop_last());
        let lf = ps.drop_last().filter(log_data_entry());
        let cf = ps.drop_last().filter(committed_entry());
        assert(lf.push(ps.last()).map_values(entry_pointer()) =~= lf.map_values(entry_pointer()).push(ps.last().0));
        assert(cf.push(ps.last()).map_values(entry_pointer()) =~= cf.map_values(entry_pointer()).push(ps.last().0));
    }
}

/// The corruption pool of collected pointers `ps` is every pointer of `ps`
/// to log data, in order, where there is any; otherwise every pointer to a
/// committed value, in order. In particular no log data pointer is left out.
pub proof fn law_pool_is_every_log_data_pointer(ps: Seq<(Seq<u8>, nat)>)
    ensures
        (exists|k: int| 0 <= k < ps.len() && #[trigger] is_log_data(ps[k].0)) ==> corruption_pool(ps)
            == ps.filter(log_data_entry()).map_values(entry_pointer()),
        (forall|k: int| 0 <= k < ps.len() ==> !#[trigger] is_log_data(ps[k].0)) ==> corruption_pool(ps)
            == ps.filter(committed_entry()).map_values(entry_pointer()),
        forall|k: int| 0 <= k < ps.len() && #[trigger] is_log_data(ps[k].0) ==> corruption_pool(ps).contains(ps[k].0),
{
    lemma_pool_parts(ps);
    let lf = ps.filter(log_data_entry());
    assert forall|k: int| 0 <= k < ps.len() && #[trigger] is_log_data(ps[k].0) implies corruption_pool(ps).contains(
        ps[k].0,
    ) by {
        ps.lemma_filter_contains(log_data_entry(), k);
        let j = choose|j: int| 0 <= j < lf.len() && lf[j] == ps[k];
        assert(lf.map_values(entry_pointer())[j] == ps[k].0);
    }
    if !(exists|k: int| 0 <= k < ps.len() && #[trigger] is_log_data(ps[k].0)) {
        if lf.len() > 0 {
            ps.lemma_filter_pred(log_data_entry(), 0);
            assert(lf.contains(lf[0]));
            ps.lemma_filter_contains_rev(log_data_entry(), lf[0]);
            let k = choose|k: int| 0 <= k < ps.len() && ps[k] == lf[0];
            assert(is_log_data(ps[k].0));
        }
    } else {
        let k = choose|k: int| 0 <= k < ps.len() && #[trigger] is_log_data(ps[k].0);
        ps.lemma_filter_contains(log_data_entry(), k);
        assert(lf.len() > 0);
        assert(lf.map_values(entry_pointer()).len() > 0);
    }
}

/// The pointer of the value at `loc` in `t`, spelled as the collection
/// spells it from `path`, the pointer of `t`: each array step adds `/` and
/// the element's decimal index, each object step `/` and the member's name.
pub open spec fn pointer_of_location(t: JsonTree, path: Seq<u8>, loc: Seq<int>) -> Seq<u8>
    decreases loc.len(),
{
    if loc.len() == 0 {
        path
    } else {
        match t {
            JsonTree::Array(items) => if 0 <= loc[0] < items.len() {
                pointer_of_location(
                    items[loc[0]],
                    path + seq![0x2fu8] + encode_utf8(decimal_chars(loc[0] as nat)),
                    loc.drop_first(),
                )
            } else {
                path
            },
            JsonTree::Object(ms) => if 0 <= loc[0] < ms.len() {
                pointer_of_location(ms[loc[0]].1, path + seq![0x2fu8] + encode_utf8(ms[loc[0]].0), loc.drop_first())
            } else {
                path
            },
            _ => path,
        }
    }
}

proof fn lemma_slash()
    ensures
        encode_utf8("/"@) == seq![0x2fu8],
{
    reveal_strlit("/");
    vstd::utf8::is_ascii_chars_encode_utf8("/"@);
    assert(encode_utf8("/"@) =~= seq![0x2fu8]);
}

proof fn lemma_array_part(items: Seq<JsonTree>, path: Seq<u8>, n: nat, i: int, e: (Seq<u8>, nat))
    requires
        0 <= i < n <= items.len(),
        hex_pointers(items[i], child_path(path, encode_utf8(decimal_chars(i as nat)))).contains(e),
    ensures
        array_hex_pointers(items, path, n).contains(e),
    decreases n,
{
    let prev = array_hex_pointers(items, path, (n - 1) as nat);
    let last = hex_pointers(items[n - 1], child_path(path, encode_utf8(decimal_chars((n - 1) as nat))));
    assert(array_hex_pointers(items, path, n) == prev + last);
    if i < n - 1 {
        lemma_array_part(items, path, (n - 1) as nat, i, e);
        let j = choose|j: int| 0 <= j < prev.len() && prev[j] == e;
        assert((prev + last)[j] == e);
    } else {
        let j = choose|j: int| 0 <= j < last.len() && last[j] == e;
        assert((prev + last)[prev.len() + j] == e);
    }
}

proof fn lemma_object_part(ms: Seq<(Seq<char>, JsonTree)>, path: Seq<u8>, n: nat, i: int, e: (Seq<u8>, nat))
    requires
        0 <= i < n <= ms.len(),
        hex_pointers(ms[i].1, child_path(path, encode_utf8(ms[i].0))).contains(e),
    ensures
        object_hex_pointers(ms, path, n).contains(e),
    decreases n,
{
    let prev = object_hex_pointers(ms, path, (n - 1) as nat);
    let last = hex_pointers(ms[n - 1].1, child_path(path, encode_utf8(ms[n - 1].0)));
    assert(object_hex_pointers(ms, path, n) == prev + last);
    if i < n - 1 {
        lemma_object_part(ms, path, (n - 1) as nat, i, e);
        let j = choose|j: int| 0 <= j < prev.len() && prev[j] == e;
        assert((prev + last)[j] == e);
    } else {
        let j = choose|j: int| 0 <= j < last.len() && last[j] == e;
        assert((prev + last)[prev.len() + j] == e);
    }
}

/// Nothing hex-looking is missed: every string anywhere in `t` that starts
/// with `0x` and is longer than four bytes is collected, with its pointer
/// (spelled from `path` through every array index and member name on the
/// way) and its byte length.
pub proof fn law_every_hex_string_is_collected(t: JsonTree, path: Seq<u8>, loc: Seq<int>, s: Seq<char>)
    requires
        node_at(t, loc) == Some(JsonTree::String(s)),
        encode_utf8(s).len() > 4,
        encode_utf8(s)[0] == 0x30,
        encode_utf8(s)[1] == 0x78,
    ensures
        hex_pointers(t, path).contains((pointer_of_location(t, path, loc), encode_utf8(s).len())),
    decreases loc.len(),
{
    let e = (pointer_of_location(t, path, loc), encode_utf8(s).len());
    lemma_slash();
    if loc.len() == 0 {
        reveal_strlit("0x");
        vstd::utf8::is_ascii_chars_encode_utf8("0x"@);
        assert(encode_utf8(s).subrange(0, 2) =~= encode_utf8("0x"@));
        assert(hex_pointers(t, path) == seq![e]);
        assert(hex_pointers(t, path)[0] == e);
    } else {
        match t {
            JsonTree::Array(items) => {
                let i = loc[0];
                let cp = child_path(path, encode_utf8(decimal_chars(i as nat)));
                assert(cp == path + seq![0x2fu8] + encode_utf8(decimal_chars(i as nat)));
                law_every_hex_string_is_collected(items[i], cp, loc.drop_first(), s);
                lemma_array_part(items, path, items.len(), i, e);
            },
            JsonTree::Object(ms) => {
                let i = loc[0];
                let cp = child_path(path, encode_utf8(ms[i].0));
                assert(cp == path + seq![0x2fu8] + encode_utf8(ms[i].0));
                law_every_hex_string_is_collected(ms[i].1, cp, loc.drop_first(), s);
                lemma_object_part(ms, path, ms.len(), i, e);
            },
            _ => {},
        }
    }
}

/// Bytes that are all ASCII are valid UTF-8.
proof fn lemma_ascii_bytes_valid(b: Seq<u8>)
    requires
        forall|i: int| 0 <= i < b.len() ==> b[i] < 0x80,
    ensures
        valid_utf8(b),
{
    let c = Seq::new(b.len(), |i: int| b[i] as char);
    assert forall|i: int| 0 <= i < c.len() implies '\0' <= #[trigger] c[i] <= '\u{7f}' by {
        assert(b[i] < 0x80);
    }
    assert(is_ascii_chars(c));
    vstd::utf8::is_ascii_chars_encode_utf8(c);
    assert forall|i: int| 0 <= i < b.len() implies encode_utf8(c)[i] == b[i] by {
        assert(c[i] as u8 == encode_utf8(c)[i]);
    }
    assert(encode_utf8(c) =~= b);
    vstd::utf8::encode_utf8_valid_utf8(c);
}

/// Scrambling an ASCII target always succeeds, whatever its length: where
/// the pointer leads to a string of ASCII characters longer than its `0x`
/// prefix, the scramble answers three flips and the response is changed
/// there, to three flips of that string. (Only a string holding multi-byte
/// characters, or a pointer leading to no string, can leave it untouched.)
pub proof fn law_ascii_targets_always_scramble(
    response: JsonValue,
    target: Seq<u8>,
    flips: Option<u32>,
    after: JsonValue,
    loc: Seq<int>,
    s: Seq<char>,
)
    requires
        target_is_flippable(tree_of(response), target),
        match flips {
            None => after == response && scramble_may_fail_at(tree_of(response), target),
            Some(f) => f == 3 && scrambled_at(tree_of(response), tree_of(after), target),
        },
        pointer_location(tree_of(response), target) == Some(loc),
        node_at(tree_of(response), loc) == Some(JsonTree::String(s)),
        is_ascii_chars(s),
        s.len() > 2,
    ensures
        flips == Some(3u32),
        tree_of(after) != tree_of(response),
        exists|b: Seq<u8>|
            #[trigger] three_flips(encode_utf8(s), b) && tree_of(after) == update_at(
                tree_of(response),
                loc,
                JsonTree::String(decode_utf8(b)),
            ),
{
    let t = tree_of(response);
    let orig = encode_utf8(s);
    vstd::utf8::is_ascii_chars_encode_utf8(s);
    vstd::utf8::is_ascii_chars_nat_bound(s);
    assert forall|b: Seq<u8>| #[trigger] three_flips(orig, b) implies valid_utf8(b) by {
        crate::chaos::law_flips_keep_shape(orig, b);
        assert forall|i: int| 0 <= i < b.len() implies b[i] < 0x80 by {
            assert(orig[i] == s[i] as u8);
            if b[i] != orig[i] {
                assert(crate::chaos::is_hex_digit(b[i]));
            }
        }
        lemma_ascii_bytes_valid(b);
    }
    assert(!scramble_may_fail_at(t, target));
    crate::chaos::law_scrambled_response_is_wrong(t, tree_of(after), target);
}

} // verus!
