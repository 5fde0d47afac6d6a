//! The chaos proxy's corruption of receipt responses.

use vstd::prelude::*;
use vstd::utf8::{decode_utf8, encode_utf8, valid_utf8};

use crate::text::{
    contains_bytes, decimal_bytes, decimal_chars, ends_with_bytes, push_str_bytes, seq_contains,
    seq_ends_with, seq_starts_with, starts_with_bytes, string_from_utf8,
};
use crate::json::{
    find_member, first_key_index, member_trees, node_at, pointer_location, pointer_string, replace_at,
    tree_of, update_at, JsonTree, JsonValue,
};
use crate::verify::append_bytes;

verus! {

/// A string worth corrupting: hex-looking (`0x` prefix) and longer than four
/// bytes.
pub open spec fn is_hex_like(s: Seq<u8>) -> bool {
    seq_starts_with(s, encode_utf8("0x"@)) && s.len() > 4
}

/// The JSON pointer of a child: the parent's pointer, `/`, and the segment.
pub open spec fn child_path(path: Seq<u8>, segment: Seq<u8>) -> Seq<u8> {
    path + encode_utf8("/"@) + segment
}

/// The pointers (with the byte length of the string there) of every
/// hex-looking string in `t`, depth first, in document order; `path` is the
/// pointer of `t` itself. Array elements are addressed by their decimal index,
/// object members by their name as it stands.
pub open spec fn hex_pointers(t: JsonTree, path: Seq<u8>) -> Seq<(Seq<u8>, nat)>
    decreases t, 0nat,
{
    match t {
        JsonTree::String(s) => if is_hex_like(encode_utf8(s)) {
            seq![(path, encode_utf8(s).len())]
        } else {
            seq![]
        },
        JsonTree::Array(items) => array_hex_pointers(items, path, items.len()),
        JsonTree::Object(members) => object_hex_pointers(members, path, members.len()),
        _ => seq![],
    }
}

/// `hex_pointers` of the first `n` elements of an array at `path`.
pub open spec fn array_hex_pointers(items: Seq<JsonTree>, path: Seq<u8>, n: nat) -> Seq<(Seq<u8>, nat)>
    decreases items, n,
{
    if n == 0 || n > items.len() {
        seq![]
    } else {
        array_hex_pointers(items, path, (n - 1) as nat) + hex_pointers(
            items[n - 1],
            child_path(path, encode_utf8(decimal_chars((n - 1) as nat))),
        )
    }
}

/// `hex_pointers` of the first `n` members of an object at `path`.
pub open spec fn object_hex_pointers(members: Seq<(Seq<char>, JsonTree)>, path: Seq<u8>, n: nat) -> Seq<(Seq<u8>, nat)>
    decreases members, n,
{
    if n == 0 || n > members.len() {
        seq![]
    } else {
        object_hex_pointers(members, path, (n - 1) as nat) + hex_pointers(
            members[n - 1].1,
            child_path(path, encode_utf8(members[n - 1].0)),
        )
    }
}

/// The views of collected pointers.
pub open spec fn pointer_views(ps: Seq<(Vec<u8>, usize)>) -> Seq<(Seq<u8>, nat)> {
    ps.map_values(|p: (Vec<u8>, usize)| (p.0@, p.1 as nat))
}

/// Appends to `out` the pointer (and byte length) of every hex-looking string
/// in `value`, whose own pointer is `path`.
pub fn collect_hex_pointers(value: &JsonValue, path: Vec<u8>, out: &mut Vec<(Vec<u8>, usize)>)
    ensures
        pointer_views(final(out)@) == pointer_views(old(out)@) + hex_pointers(tree_of(*value), path@),
    decreases value,
{
    match value {
        JsonValue::String(s) => {
            let bytes = s.as_str().as_bytes();
            let hex = starts_with_bytes(bytes, "0x".as_bytes());
            if hex && bytes.len() > 4 {
                let ghost before = out@;
                out.push((path, bytes.len()));
                assert(pointer_views(out@) =~= pointer_views(before) + seq![(path@, bytes@.len())]);
            } else {
                assert(pointer_views(out@) =~= pointer_views(out@) + Seq::<(Seq<u8>, nat)>::empty());
            }
        },
        JsonValue::Array(items) => {
            let ghost t = tree_of(*value);
            let ghost trees = t->Array_0;
            let n = items.len();
            let ghost start = pointer_views(out@);
            for i in 0..n
                invariant
                    *value == JsonValue::Array(*items),
                    n == items@.len(),
                    trees.len() == n,
                    forall|k: int| 0 <= k < n ==> trees[k] == tree_of(#[trigger] items@[k]),
                    pointer_views(out@) == start + array_hex_pointers(trees, path@, i as nat),
            {
                let mut child: Vec<u8> = path.clone();
                push_str_bytes(&mut child, "/");
                let digits = decimal_bytes(i as u64);
                append_bytes(&mut child, &digits);
                let ghost mid = pointer_views(out@);
                proof {
                    vstd::std_specs::vec::axiom_vec_index_decreases(*items, i as int);
                    let ghost whole = JsonValue::Array(*items);
                    assert(decreases_to!(whole => whole->Array_0));
                    assert(decreases_to!(whole => items[i as int]));
                }
                collect_hex_pointers(&items[i], child, out);
                proof {
                    assert(trees[i as int] == tree_of(items@[i as int]));
                    assert(start + array_hex_pointers(trees, path@, (i + 1) as nat) =~= mid
                        + hex_pointers(trees[i as int], child_path(path@, encode_utf8(decimal_chars(i as nat)))));
                }
            }
        },
        JsonValue::Object(members) => {
            let ghost t = tree_of(*value);
            let ghost ms = t->Object_0;
            let n = members.len();
            let ghost start = pointer_views(out@);
            for i in 0..n
                invariant
                    *value == JsonValue::Object(*members),
                    n == members@.len(),
                    ms.len() == n,
                    forall|k: int| 0 <= k < n ==> ms[k] == (#[trigger] members@[k].key@, tree_of(members@[k].value)),
                    pointer_views(out@) == start + object_hex_pointers(ms, path@, i as nat),
            {
                let mut child: Vec<u8> = path.clone();
                push_str_bytes(&mut child, "/");
                push_str_bytes(&mut child, members[i].key.as_str());
                let ghost mid = pointer_views(out@);
                proof {
                    vstd::std_specs::vec::axiom_vec_index_decreases(*members, i as int);
                    let ghost whole = JsonValue::Object(*members);
                    let ghost member = members[i as int];
                    assert(decreases_to!(whole => whole->Object_0));
                    assert(decreases_to!(member => member.value));
                    assert(decreases_to!(whole => member.value));
                }
                collect_hex_pointers(&members[i].value, child, out);
                proof {
                    assert(ms[i as int] == (members@[i as int].key@, tree_of(members@[i as int].value)));
                    assert(start + object_hex_pointers(ms, path@, (i + 1) as nat) =~= mid
                        + hex_pointers(ms[i as int].1, child_path(path@, encode_utf8(ms[i as int].0))));
                }
            }
        },
        _ => {
            assert(pointer_views(out@) =~= pointer_views(out@) + Seq::<(Seq<u8>, nat)>::empty());
        },
    }
}

/// The hex-looking strings under the response's `result` member, with
/// pointers starting at `/result` (none when there is no such member).
pub open spec fn result_pointers(t: JsonTree) -> Seq<(Seq<u8>, nat)> {
    match t {
        JsonTree::Object(ms) => match first_key_index(ms, encode_utf8("result"@)) {
            Some(k) => hex_pointers(ms[k].1, encode_utf8("/result"@)),
            None => seq![],
        },
        _ => seq![],
    }
}

/// A pointer to a log's data.
pub open spec fn is_log_data(p: Seq<u8>) -> bool {
    seq_contains(p, encode_utf8("/logs/"@)) && seq_ends_with(p, encode_utf8("/data"@))
}

/// A pointer to a value the receipts trie commits to: log data and topics,
/// the bloom, the cumulative gas.
pub open spec fn is_committed(p: Seq<u8>) -> bool {
    (seq_contains(p, encode_utf8("/logs/"@)) && (seq_ends_with(p, encode_utf8("/data"@))
        || seq_contains(p, encode_utf8("/topics/"@)))) || seq_ends_with(p, encode_utf8("/logsBloom"@))
        || seq_ends_with(p, encode_utf8("/cumulativeGasUsed"@))
}

/// The pointers to log data, in order.
pub open spec fn log_data_paths(ps: Seq<(Seq<u8>, nat)>) -> Seq<Seq<u8>>
    decreases ps.len(),
{
    if ps.len() == 0 {
        seq![]
    } else if is_log_data(ps.last().0) {
        log_data_paths(ps.drop_last()).push(ps.last().0)
    } else {
        log_data_paths(ps.drop_last())
    }
}

/// The pointers to committed values, in order.
pub open spec fn committed_paths(ps: Seq<(Seq<u8>, nat)>) -> Seq<Seq<u8>>
    decreases ps.len(),
{
    if ps.len() == 0 {
        seq![]
    } else if is_committed(ps.last().0) {
        committed_paths(ps.drop_last()).push(ps.last().0)
    } else {
        committed_paths(ps.drop_last())
    }
}

/// Where corruption may strike: log payloads where there are any, else any
/// committed value.
pub open spec fn corruption_pool(ps: Seq<(Seq<u8>, nat)>) -> Seq<Seq<u8>> {
    if log_data_paths(ps).len() > 0 {
        log_data_paths(ps)
    } else {
        committed_paths(ps)
    }
}

/// The pointers a corruption of this response may pick from.
pub fn corruption_targets(response: &JsonValue) -> (pool: Vec<Vec<u8>>)
    ensures
        pool@.map_values(|p: Vec<u8>| p@) == corruption_pool(result_pointers(tree_of(*response))),
{
    let mut pointers: Vec<(Vec<u8>, usize)> = Vec::new();
    if let JsonValue::Object(ms) = response {
        let key = "result".as_bytes();
        if let Some(k) = find_member(ms, key) {
            proof {
                crate::json::lemma_first_key_index(member_trees(ms@), key@);
                assert(tree_of(*response)->Object_0 =~= member_trees(ms@));
            }
            let mut path: Vec<u8> = Vec::new();
            push_str_bytes(&mut path, "/result");
            assert(path@ =~= encode_utf8("/result"@));
            assert(pointer_views(pointers@) =~= Seq::<(Seq<u8>, nat)>::empty());
            collect_hex_pointers(&ms[k].value, path, &mut pointers);
            assert(key@ == encode_utf8("result"@));
            assert(ms@.len() == ms.len());
            assert(first_key_index(member_trees(ms@), key@) == Some(k as int));
            assert(first_key_index(tree_of(*response)->Object_0, encode_utf8("result"@)) == Some(k as int));
            assert(member_trees(ms@)[k as int].1 == tree_of(ms@[k as int].value));
            assert(pointer_views(pointers@) =~= result_pointers(tree_of(*response)));
        } else {
            assert(tree_of(*response)->Object_0 =~= member_trees(ms@));
            assert(pointer_views(pointers@) =~= result_pointers(tree_of(*response)));
        }
    } else {
        assert(pointer_views(pointers@) =~= result_pointers(tree_of(*response)));
    }
    let ghost ps = pointer_views(pointers@);
    let n = pointers.len();
    let mut logs: Vec<Vec<u8>> = Vec::new();
    let mut committed: Vec<Vec<u8>> = Vec::new();
    assert(ps.subrange(0, 0) =~= Seq::<(Seq<u8>, nat)>::empty());
    for i in 0..n
        invariant
            n == pointers@.len(),
            ps == pointer_views(pointers@),
            logs@.map_values(|p: Vec<u8>| p@) == log_data_paths(ps.subrange(0, i as int)),
            committed@.map_values(|p: Vec<u8>| p@) == committed_paths(ps.subrange(0, i as int)),
    {
        let ghost pre = ps.subrange(0, i as int);
        assert(ps.subrange(0, i + 1).drop_last() =~= pre);
        assert(ps.subrange(0, i + 1).last() == ps[i as int]);
        let p = pointers[i].0.as_slice();
        assert(p@ == ps[i as int].0);
        let in_logs = contains_bytes(p, "/logs/".as_bytes());
        let is_data = ends_with_bytes(p, "/data".as_bytes());
        let in_topics = contains_bytes(p, "/topics/".as_bytes());
        let is_bloom = ends_with_bytes(p, "/logsBloom".as_bytes());
        let is_gas = ends_with_bytes(p, "/cumulativeGasUsed".as_bytes());
        let ghost logs_before = logs@.map_values(|q: Vec<u8>| q@);
        let ghost committed_before = committed@.map_values(|q: Vec<u8>| q@);
        if in_logs && is_data {
            logs.push(pointers[i].0.clone());
            assert(logs@.map_values(|q: Vec<u8>| q@) =~= logs_before.push(ps[i as int].0));
        }
        if (in_logs && (is_data || in_topics)) || is_bloom || is_gas {
            committed.push(pointers[i].0.clone());
            assert(committed@.map_values(|q: Vec<u8>| q@) =~= committed_before.push(ps[i as int].0));
        }
    }
    assert(ps.subrange(0, n as int) =~= ps);
    if logs.len() > 0 {
        logs
    } else {
        committed
    }
}

/// A lowercase hex digit.
pub open spec fn is_hex_digit(c: u8) -> bool {
    (0x30 <= c <= 0x39) || (0x61 <= c <= 0x66)
}

/// The `j`th lowercase hex digit.
pub open spec fn spec_hex_digit(j: int) -> u8 {
    if j < 10 {
        (48 + j) as u8
    } else {
        (87 + j) as u8
    }
}

/// One bit flip of `b`, a hex string being scrambled from `orig`: the byte
/// at `i` (past the `0x` prefix) replaced by a hex digit `c` that differs
/// both from what is there and from what was there originally, so no flip
/// ever puts an original digit back.
pub open spec fn valid_flip(orig: Seq<u8>, b: Seq<u8>, i: int, c: u8) -> bool {
    2 <= i < b.len() && i < orig.len() && is_hex_digit(c) && c != b[i] && c != orig[i]
}

/// `after` is `before` with three flips made one after the other.
pub open spec fn three_flips(before: Seq<u8>, after: Seq<u8>) -> bool {
    exists|i1: int, c1: u8, i2: int, c2: u8, i3: int, c3: u8|
        #![trigger before.update(i1, c1).update(i2, c2).update(i3, c3)]
        valid_flip(before, before, i1, c1) && valid_flip(before, before.update(i1, c1), i2, c2)
            && valid_flip(before, before.update(i1, c1).update(i2, c2), i3, c3) && after
            == before.update(i1, c1).update(i2, c2).update(i3, c3)
}

/// Whether a corruption aimed at `target` can proceed without running out
/// of positions to flip: the pointer leads nowhere, to something other than a
/// string, or to a string longer than its two-byte prefix.
pub open spec fn target_is_flippable(t: JsonTree, target: Seq<u8>) -> bool {
    match pointer_location(t, target) {
        Some(loc) => match node_at(t, loc) {
            Some(JsonTree::String(s)) => encode_utf8(s).len() > 2,
            _ => true,
        },
        None => true,
    }
}

/// Every target the corruption of `t` may pick is flippable.
pub open spec fn corruption_is_safe(t: JsonTree) -> bool {
    let pool = corruption_pool(result_pointers(t));
    forall|k: int| 0 <= k < pool.len() ==> target_is_flippable(t, #[trigger] pool[k])
}

/// `after` is `t` with the string at `target` scrambled by three flips into
/// other valid UTF-8.
pub open spec fn scrambled_at(t: JsonTree, after: JsonTree, target: Seq<u8>) -> bool {
    match pointer_location(t, target) {
        Some(loc) => match node_at(t, loc) {
            Some(JsonTree::String(s)) => exists|b: Seq<u8>|
                #[trigger] three_flips(encode_utf8(s), b) && valid_utf8(b) && after == update_at(
                    t,
                    loc,
                    JsonTree::String(decode_utf8(b)),
                ),
            _ => false,
        },
        None => false,
    }
}

/// Whether a scramble aimed at `target` may end with nothing changed: the
/// pointer leads to no string, or some three flips of that string's bytes
/// are not valid UTF-8 (a flip may land inside a multi-byte character).
pub open spec fn scramble_may_fail_at(t: JsonTree, target: Seq<u8>) -> bool {
    match pointer_location(t, target) {
        Some(loc) => match node_at(t, loc) {
            Some(JsonTree::String(s)) => exists|b: Seq<u8>|
                #[trigger] three_flips(encode_utf8(s), b) && !valid_utf8(b),
            _ => true,
        },
        None => true,
    }
}

/// `fastrand::usize(low..high)`: some value in the range; which one is chance.
#[verifier::external_body]
fn random_usize(low: usize, high: usize) -> (r: usize)
    requires
        low < high,
    ensures
        low <= r < high,
{
    fastrand::usize(low..high)
}

/// `fastrand::u64(low..high)`: some value in the range; which one is chance.
#[verifier::external_body]
fn random_u64(low: u64, high: u64) -> (r: u64)
    requires
        low < high,
    ensures
        low <= r < high,
{
    fastrand::u64(low..high)
}

fn hex_digit(j: usize) -> (c: u8)
    requires
        j < 16,
    ensures
        c == spec_hex_digit(j as int),
        is_hex_digit(c),
{
    if j < 10 {
        48 + j as u8
    } else {
        87 + j as u8
    }
}

/// A hex digit other than `a` and `b`, each such digit equally likely.
fn hex_digit_avoiding(a: u8, b: u8) -> (c: u8)
    ensures
        is_hex_digit(c),
        c != a,
        c != b,
{
    let mut allowed: Vec<u8> = Vec::new();
    let ghost mut seen_a = false;
    let ghost mut seen_b = false;
    for d in 0..16
        invariant
            forall|k: int| 0 <= k < allowed.len() ==> is_hex_digit(#[trigger] allowed@[k]) && allowed@[k] != a
                && allowed@[k] != b,
            seen_a <==> exists|j: int| 0 <= j < d && #[trigger] spec_hex_digit(j) == a,
            seen_b <==> exists|j: int| 0 <= j < d && #[trigger] spec_hex_digit(j) == b,
            allowed.len() + (if seen_a { 1int } else { 0 }) + (if seen_b { 1int } else { 0 }) >= d,
    {
        let c = hex_digit(d);
        proof {
            assert forall|j: int| 0 <= j < d implies #[trigger] spec_hex_digit(j) != c by {}
            assert(spec_hex_digit(d as int) == c);
            seen_a = seen_a || c == a;
            seen_b = seen_b || c == b;
        }
        if c != a && c != b {
            allowed.push(c);
        }
    }
    let j = random_usize(0, allowed.len());
    allowed[j]
}

/// Replaces one byte past the `0x` prefix by a hex digit that differs from
/// it and from the byte `orig` had there, each such digit equally likely.
fn flip_one(bytes: &mut Vec<u8>, orig: &Vec<u8>) -> (flip: Ghost<(int, u8)>)
    requires
        old(bytes)@.len() > 2,
        orig@.len() == old(bytes)@.len(),
    ensures
        valid_flip(orig@, old(bytes)@, flip@.0, flip@.1),
        final(bytes)@ == old(bytes)@.update(flip@.0, flip@.1),
{
    let i = random_usize(2, bytes.len());
    let new_byte = hex_digit_avoiding(bytes[i], orig[i]);
    bytes.set(i, new_byte);
    Ghost((i as int, new_byte))
}

/// The UTF-8 bytes of a string.
fn bytes_of(s: &String) -> (bytes: Vec<u8>)
    ensures
        bytes@ == encode_utf8(s@),
{
    let mut bytes: Vec<u8> = Vec::new();
    push_str_bytes(&mut bytes, s.as_str());
    bytes
}

/// Whether `target` is a pointer a scramble can work on: it leads nowhere,
/// to something other than a string, or to a string longer than its
/// two-byte prefix.
pub fn target_flippable(response: &JsonValue, target: &[u8]) -> (ok: bool)
    ensures
        ok == target_is_flippable(tree_of(*response), target@),
{
    match pointer_string(response, target) {
        Some((_, s)) => {
            let bytes = bytes_of(&s);
            bytes.len() > 2
        },
        None => true,
    }
}

/// Flips three hex digits of the string `target` points to. The `0x` prefix
/// is never touched and the value stays valid UTF-8; it is simply wrong.
/// Answers the number of flips, or `None` (leaving the response as it was)
/// when the pointer does not lead to a string or the flipped bytes are no
/// longer valid UTF-8.
pub fn scramble_at(response: &mut JsonValue, target: &[u8]) -> (flips: Option<u32>)
    requires
        target_is_flippable(tree_of(*old(response)), target@),
    ensures
        match flips {
            None => *final(response) == *old(response) && scramble_may_fail_at(tree_of(*old(response)), target@),
            Some(f) => f == 3 && scrambled_at(tree_of(*old(response)), tree_of(*final(response)), target@),
        },
{
    let ghost t = tree_of(*response);
    let (loc, s) = match pointer_string(response, target) {
        Some(found) => found,
        None => {
            assert(scramble_may_fail_at(t, target@));
            return None;
        },
    };
    let mut bytes = bytes_of(&s);
    let orig = bytes_of(&s);
    let ghost b0 = bytes@;
    let Ghost(f1) = flip_one(&mut bytes, &orig);
    let Ghost(f2) = flip_one(&mut bytes, &orig);
    let Ghost(f3) = flip_one(&mut bytes, &orig);
    assert(three_flips(b0, bytes@)) by {
        assert(b0.update(f1.0, f1.1).update(f2.0, f2.1).update(f3.0, f3.1) == bytes@);
    }
    let ghost out_bytes = bytes@;
    let new_s = match string_from_utf8(bytes) {
        Some(new_s) => new_s,
        None => {
            assert(three_flips(encode_utf8(s@), out_bytes) && !valid_utf8(out_bytes));
            assert(scramble_may_fail_at(t, target@));
            return None;
        },
    };
    let mut old_value = JsonValue::Null;
    std::mem::swap(response, &mut old_value);
    assert(crate::json::loc_view(loc@).skip(0) =~= crate::json::loc_view(loc@));
    *response = replace_at(old_value, &loc, 0, JsonValue::String(new_s));
    assert(scrambled_at(t, tree_of(*response), target@));
    Some(3)
}

/// Whether `outcome` and `after` are what an attempt to scramble `before`
/// can give: `Unflippable` (nothing changed) only where some target of the
/// corruption pool has no digit to flip, else what a scramble gives.
pub open spec fn scramble_attempt(before: JsonValue, outcome: ChaosOutcome, after: JsonValue) -> bool {
    match outcome {
        ChaosOutcome::Unflippable => after == before && !corruption_is_safe(tree_of(before)),
        _ => scramble_outcome(before, outcome, after),
    }
}

/// Draws one target of the corruption pool, preferring log payloads, and
/// scrambles it: `NoTarget` when the pool is empty or the scramble changed
/// nothing, `Unflippable` (leaving the response as it was) when the drawn
/// target has no digit past its `0x` prefix to flip.
pub fn try_scramble(response: &mut JsonValue) -> (outcome: ChaosOutcome)
    ensures
        scramble_attempt(*old(response), outcome, *final(response)),
{
    let ghost t = tree_of(*response);
    let pool = corruption_targets(response);
    let ghost pool_view = pool@.map_values(|p: Vec<u8>| p@);
    if pool.len() == 0 {
        return ChaosOutcome::NoTarget;
    }
    let pick = random_usize(0, pool.len());
    assert(pool_view[pick as int] == pool@[pick as int]@);
    assert(pool_view.contains(pool@[pick as int]@));
    if !target_flippable(response, pool[pick].as_slice()) {
        assert(!target_is_flippable(t, pool_view[pick as int]));
        return ChaosOutcome::Unflippable;
    }
    match scramble_at(response, pool[pick].as_slice()) {
        Some(flips) => ChaosOutcome::Scrambled(flips),
        None => ChaosOutcome::NoTarget,
    }
}

/// Flips three hex digits inside one value that the receipts trie commits
/// to, preferring log payloads. The `0x` prefix is never touched and the
/// value stays valid UTF-8; it is simply wrong. Answers the number of flips,
/// or `None` (leaving the response as it was) when there is nothing to
/// corrupt, the picked pointer does not lead to a string, or the flipped
/// bytes are no longer valid UTF-8.
pub fn scramble(response: &mut JsonValue) -> (flips: Option<u32>)
    requires
        corruption_is_safe(tree_of(*old(response))),
    ensures
        match flips {
            None => *final(response) == *old(response) && (corruption_pool(
                result_pointers(tree_of(*old(response))),
            ).len() == 0 || exists|target: Seq<u8>|
                corruption_pool(result_pointers(tree_of(*old(response)))).contains(target)
                    && #[trigger] scramble_may_fail_at(tree_of(*old(response)), target)),
            Some(f) => f == 3 && exists|target: Seq<u8>|
                corruption_pool(result_pointers(tree_of(*old(response)))).contains(target)
                    && #[trigger] scrambled_at(tree_of(*old(response)), tree_of(*final(response)), target),
        },
        corruption_pool(result_pointers(tree_of(*old(response)))).len() == 0 ==> flips is None,
{
    match try_scramble(response) {
        ChaosOutcome::Scrambled(flips) => Some(flips),
        _ => None,
    }
}

/// Whether every target a corruption of `response` may pick is flippable
/// (where one is not, picking it would fail on an empty range of positions).
pub fn corruption_is_safe_for(response: &JsonValue) -> (safe: bool)
    ensures
        safe == corruption_is_safe(tree_of(*response)),
{
    let ghost t = tree_of(*response);
    let pool = corruption_targets(response);
    let ghost pool_view = pool@.map_values(|p: Vec<u8>| p@);
    let n = pool.len();
    for k in 0..n
        invariant
            n == pool@.len(),
            t == tree_of(*response),
            pool_view == pool@.map_values(|p: Vec<u8>| p@),
            pool_view == corruption_pool(result_pointers(t)),
            forall|j: int| 0 <= j < k ==> target_is_flippable(t, #[trigger] pool_view[j]),
    {
        assert(pool_view[k as int] == pool@[k as int]@);
        if !target_flippable(response, pool[k].as_slice()) {
            return false;
        }
    }
    true
}

/// The JSON-RPC method a request names: its `method` member when that is a
/// string, else `?`.
pub open spec fn spec_request_method(t: JsonTree) -> Seq<char> {
    match t {
        JsonTree::Object(ms) => match first_key_index(ms, encode_utf8("method"@)) {
            Some(k) => match ms[k].1 {
                JsonTree::String(s) => s,
                _ => "?"@,
            },
            None => "?"@,
        },
        _ => "?"@,
    }
}

/// The JSON-RPC method of a request.
pub fn request_method(request: &JsonValue) -> (method: String)
    ensures
        method@ == spec_request_method(tree_of(*request)),
{
    if let JsonValue::Object(ms) = request {
        let key = "method".as_bytes();
        assert(tree_of(*request)->Object_0 =~= member_trees(ms@));
        if let Some(k) = find_member(ms, key) {
            proof {
                crate::json::lemma_first_key_index(member_trees(ms@), key@);
                assert(ms@.len() == ms.len());
                assert(member_trees(ms@)[k as int].1 == tree_of(ms@[k as int].value));
            }
            if let JsonValue::String(s) = &ms[k].value {
                return s.clone();
            }
        }
    }
    "?".to_string()
}

/// What the proxy did with one upstream response.
#[derive(Debug, PartialEq, Eq)]
pub enum ChaosOutcome {
    /// Not a receipts response: forwarded as it came.
    Untouched,
    /// A receipts response the coin spared.
    PassedThrough,
    /// A receipts response with this many flipped digits.
    Scrambled(u32),
    /// The coin chose corruption but there was nothing to corrupt.
    NoTarget,
    /// The coin chose corruption, but the target drawn has no digit past its
    /// `0x` prefix to flip; the response is left as it came.
    Unflippable,
}

/// Whether a method is the one whose answers the proxy corrupts.
pub open spec fn is_receipts_method(method: Seq<char>) -> bool {
    method == "eth_getBlockReceipts"@
}

/// Whether `outcome` and `after` are what a scramble of `before` can give:
/// three flips inside one target of the corruption pool, or nothing changed
/// when there is no target or the drawn one cannot be scrambled.
pub open spec fn scramble_outcome(before: JsonValue, outcome: ChaosOutcome, after: JsonValue) -> bool {
    let t = tree_of(before);
    let pool = corruption_pool(result_pointers(t));
    match outcome {
        ChaosOutcome::Scrambled(f) => f == 3 && exists|target: Seq<u8>|
            pool.contains(target) && #[trigger] scrambled_at(t, tree_of(after), target),
        ChaosOutcome::NoTarget => after == before && (pool.len() == 0 || exists|target: Seq<u8>|
            pool.contains(target) && #[trigger] scramble_may_fail_at(t, target)),
        _ => false,
    }
}

/// Whether `method` names the receipts call.
pub fn is_receipts_request(method: &String) -> (receipts: bool)
    ensures
        receipts == is_receipts_method(method@),
{
    let wanted = "eth_getBlockReceipts";
    let same = crate::json::bytes_equal(method.as_str().as_bytes(), wanted.as_bytes());
    proof {
        vstd::utf8::encode_utf8_decode_utf8(method@);
        vstd::utf8::encode_utf8_decode_utf8(wanted@);
    }
    same
}

/// Decides the fate of one upstream response to a request for `method`,
/// given the coin drawn for it: a receipts response is scrambled when the
/// coin is 0 and passed through otherwise; any other passes untouched.
pub fn corrupt_response_with(method: &String, coin: u64, response: &mut JsonValue) -> (outcome: ChaosOutcome)
    ensures
        !is_receipts_method(method@) ==> outcome == ChaosOutcome::Untouched && *final(response)
            == *old(response),
        is_receipts_method(method@) ==> coin_decides(coin, *old(response), outcome, *final(response)),
{
    if !is_receipts_request(method) {
        return ChaosOutcome::Untouched;
    }
    if coin == 0 {
        try_scramble(response)
    } else {
        ChaosOutcome::PassedThrough
    }
}

/// What the coin drawn for a receipts response decides: any coin but 0
/// passes the response through unchanged; 0 attempts a scramble.
pub open spec fn coin_decides(coin: u64, before: JsonValue, outcome: ChaosOutcome, after: JsonValue) -> bool {
    if coin != 0 {
        outcome == ChaosOutcome::PassedThrough && after == before
    } else {
        scramble_attempt(before, outcome, after)
    }
}

/// Decides the fate of one upstream response to a request for `method`: a
/// receipts response is corrupted with probability `1 / rate` (the coin,
/// drawn from `0..rate`, is `fastrand`'s and corruption comes on 0), any
/// other passes untouched. Which coin came up is chance; the outcome is what
/// some coin in `0..rate` decides, so with a rate of 1 a receipts response
/// is never passed through.
pub fn corrupt_response(method: &String, rate: u64, response: &mut JsonValue) -> (outcome: ChaosOutcome)
    requires
        is_receipts_method(method@) ==> rate > 0,
    ensures
        !is_receipts_method(method@) ==> outcome == ChaosOutcome::Untouched && *final(response)
            == *old(response),
        is_receipts_method(method@) ==> exists|coin: u64|
            coin < rate && #[trigger] coin_decides(coin, *old(response), outcome, *final(response)),
        is_receipts_method(method@) && rate == 1 ==> !(outcome is PassedThrough),
{
    if !is_receipts_request(method) {
        return ChaosOutcome::Untouched;
    }
    let coin = random_u64(0, rate);
    let outcome = corrupt_response_with(method, coin, response);
    assert(coin_decides(coin, *old(response), outcome, *response));
    outcome
}

/// Flipping leaves the length and the `0x` prefix alone, puts only hex
/// digits where it changed anything, and always leaves the value wrong.
pub proof fn law_flips_keep_shape(before: Seq<u8>, after: Seq<u8>)
    requires
        three_flips(before, after),
    ensures
        after.len() == before.len(),
        after.len() > 2 ==> after.subrange(0, 2) == before.subrange(0, 2),
        forall|i: int| 0 <= i < after.len() && after[i] != before[i] ==> 2 <= i && is_hex_digit(#[trigger] after[i]),
        after != before,
{
    let (i1, c1, i2, c2, i3, c3) = choose|i1: int, c1: u8, i2: int, c2: u8, i3: int, c3: u8|
        #![trigger before.update(i1, c1).update(i2, c2).update(i3, c3)]
        valid_flip(before, before, i1, c1) && valid_flip(before, before.update(i1, c1), i2, c2)
            && valid_flip(before, before.update(i1, c1).update(i2, c2), i3, c3) && after
            == before.update(i1, c1).update(i2, c2).update(i3, c3);
    if after.len() > 2 {
        assert(after.subrange(0, 2) =~= before.subrange(0, 2));
    }
    assert(after[i3] != before[i3]);
}

/// A scrambled response is never the response it came from: the value at
/// the target now reads differently.
pub proof fn law_scrambled_response_is_wrong(t: JsonTree, after: JsonTree, target: Seq<u8>)
    requires
        scrambled_at(t, after, target),
    ensures
        after != t,
{
    let loc = pointer_location(t, target)->Some_0;
    let s = node_at(t, loc)->Some_0->String_0;
    let b = choose|b: Seq<u8>|
        #[trigger] three_flips(encode_utf8(s), b) && valid_utf8(b) && after == update_at(
            t,
            loc,
            JsonTree::String(decode_utf8(b)),
        );
    law_flips_keep_shape(encode_utf8(s), b);
    vstd::utf8::decode_utf8_encode_utf8(b);
    crate::json::law_update_reads_back(t, loc, JsonTree::String(decode_utf8(b)));
    assert(decode_utf8(b) != s);
}

pub proof fn lemma_log_data_paths(ps: Seq<(Seq<u8>, nat)>)
    ensures
        forall|k: int| 0 <= k < log_data_paths(ps).len() ==> is_log_data(#[trigger] log_data_paths(ps)[k]),
    decreases ps.len(),
{
    if ps.len() > 0 {
        lemma_log_data_paths(ps.drop_last());
        let prev = log_data_paths(ps.drop_last());
        assert forall|k: int| 0 <= k < log_data_paths(ps).len() implies is_log_data(#[trigger] log_data_paths(ps)[k]) by {
            if k < prev.len() {
                assert(log_data_paths(ps)[k] == prev[k]);
            }
        }
    }
}

pub proof fn lemma_committed_paths(ps: Seq<(Seq<u8>, nat)>)
    ensures
        forall|k: int| 0 <= k < committed_paths(ps).len() ==> is_committed(#[trigger] committed_paths(ps)[k]),
    decreases ps.len(),
{
    if ps.len() > 0 {
        lemma_committed_paths(ps.drop_last());
        let prev = committed_paths(ps.drop_last());
        assert forall|k: int| 0 <= k < committed_paths(ps).len() implies is_committed(#[trigger] committed_paths(ps)[k]) by {
            if k < prev.len() {
                assert(committed_paths(ps)[k] == prev[k]);
            }
        }
    }
}

/// Corruption only ever aims at values the receipts trie commits to, and at
/// log payloads whenever there are any.
pub proof fn law_corruption_aims_at_committed_values(ps: Seq<(Seq<u8>, nat)>)
    ensures
        forall|k: int| 0 <= k < corruption_pool(ps).len() ==> is_committed(#[trigger] corruption_pool(ps)[k]),
        log_data_paths(ps).len() > 0 ==> forall|k: int|
            0 <= k < corruption_pool(ps).len() ==> is_log_data(#[trigger] corruption_pool(ps)[k]),
{
    lemma_log_data_paths(ps);
    lemma_committed_paths(ps);
}

} // verus!
