//! How the pointers the chaos proxy collects lead back to what they name.

use vstd::prelude::*;
use vstd::utf8::encode_utf8;

use crate::chaos::{
    array_hex_pointers, child_path, committed_paths, corruption_is_safe, corruption_pool, hex_pointers,
    is_hex_like, log_data_paths, object_hex_pointers, result_pointers, target_is_flippable,
};
use crate::json::{
    digits_value, first_key_index, is_digit, locate, node_at, parse_index, pointer_location, replace_pair,
    split_slash, unescape_token, JsonTree,
};
use crate::text::{decimal_chars, digit_char, lemma_encode_digit, lemma_encode_utf8_concat};

verus! {

/// A member name a pointer can spell as it stands: no `/` and no `~`.
pub open spec fn plain_name(name: Seq<u8>) -> bool {
    forall|i: int| 0 <= i < name.len() ==> name[i] != 0x2f && name[i] != 0x7e
}

/// Every member name in `t` is plain and unique within its object, so that
/// a pointer spelled from names and indices names exactly one value (and, as
/// in every value held in memory, no array has more elements than `usize`
/// can count).
pub open spec fn well_named(t: JsonTree) -> bool
    decreases t, 0nat,
{
    match t {
        JsonTree::Array(items) => items.len() <= usize::MAX + 1 && well_named_items(items, items.len()),
        JsonTree::Object(ms) => well_named_members(ms, ms.len()),
        _ => true,
    }
}

pub open spec fn well_named_items(items: Seq<JsonTree>, n: nat) -> bool
    decreases items, n,
{
    if n == 0 || n > items.len() {
        true
    } else {
        well_named_items(items, (n - 1) as nat) && well_named(items[n - 1])
    }
}

pub open spec fn well_named_members(ms: Seq<(Seq<char>, JsonTree)>, n: nat) -> bool
    decreases ms, n,
{
    if n == 0 || n > ms.len() {
        true
    } else {
        &&& well_named_members(ms, (n - 1) as nat)
        &&& well_named(ms[n - 1].1)
        &&& plain_name(encode_utf8(ms[n - 1].0))
        &&& forall|j: int| 0 <= j < n - 1 ==> encode_utf8(#[trigger] ms[j].0) != encode_utf8(ms[n - 1].0)
    }
}

/// The entry `e` of the pointers collected from `t` at `path` continues the
/// tokens of `path`, and the tokens past them lead in `t` to the hex-looking
/// string the entry records.
pub open spec fn resolves_below(t: JsonTree, path: Seq<u8>, e: (Seq<u8>, nat)) -> bool {
    let base = split_slash(path);
    let toks = split_slash(e.0);
    &&& path.len() <= e.0.len()
    &&& e.0.subrange(0, path.len() as int) == path
    &&& base.len() <= toks.len()
    &&& toks.subrange(0, base.len() as int) == base
    &&& locate(t, toks.skip(base.len() as int)) matches Some(loc) && node_at(t, loc) matches Some(
        JsonTree::String(s),
    ) && encode_utf8(s).len() == e.1 && is_hex_like(encode_utf8(s))
}

pub proof fn lemma_split_append_plain(path: Seq<u8>, seg: Seq<u8>)
    requires
        plain_name(seg),
    ensures
        split_slash(path + seq![0x2fu8] + seg) == split_slash(path).push(seg),
    decreases seg.len(),
{
    if seg.len() == 0 {
        let whole = path + seq![0x2fu8] + seg;
        assert(whole =~= path.push(0x2f));
        assert(whole.drop_last() =~= path);
        assert(whole.last() == 0x2f);
        assert(split_slash(whole) == split_slash(path).push(Seq::empty()));
        assert(seg =~= Seq::<u8>::empty());
    } else {
        let shorter = seg.drop_last();
        assert(plain_name(shorter)) by {
            assert forall|i: int| 0 <= i < shorter.len() implies shorter[i] != 0x2f && shorter[i] != 0x7e by {
                assert(shorter[i] == seg[i]);
            }
        }
        lemma_split_append_plain(path, shorter);
        let whole = path + seq![0x2fu8] + seg;
        assert(whole.drop_last() =~= path + seq![0x2fu8] + shorter);
        assert(whole.last() == seg.last());
        assert(seg.last() != 0x2f);
        let s = split_slash(path + seq![0x2fu8] + shorter);
        assert(s == split_slash(path).push(shorter));
        assert(s.last() == shorter);
        assert(shorter.push(seg.last()) =~= seg);
        assert(s.update(s.len() - 1, s.last().push(seg.last())) =~= split_slash(path).push(seg));
        assert(split_slash(whole) == s.update(s.len() - 1, s.last().push(whole.last())));
    }
}

pub proof fn lemma_replace_pair_absent(s: Seq<u8>, a: u8, b: u8, r: u8)
    requires
        forall|i: int| 0 <= i < s.len() ==> s[i] != a,
    ensures
        replace_pair(s, a, b, r) == s,
    decreases s.len(),
{
    if s.len() >= 2 {
        assert(s[0] != a);
        lemma_replace_pair_absent(s.drop_first(), a, b, r);
        assert(seq![s[0]] + s.drop_first() =~= s);
    }
}

pub proof fn lemma_unescape_plain(seg: Seq<u8>)
    requires
        plain_name(seg),
    ensures
        unescape_token(seg) == seg,
{
    lemma_replace_pair_absent(seg, 0x7e, 0x31, 0x2f);
    lemma_replace_pair_absent(seg, 0x7e, 0x30, 0x7e);
}

/// The facts about the decimal spelling of an index that resolution needs.
pub proof fn lemma_decimal_index(i: nat)
    ensures
        encode_utf8(decimal_chars(i)).len() >= 1,
        forall|k: int| 0 <= k < encode_utf8(decimal_chars(i)).len() ==> #[trigger] is_digit(encode_utf8(decimal_chars(i))[k]),
        encode_utf8(decimal_chars(i))[0] == 0x30 ==> encode_utf8(decimal_chars(i)).len() == 1,
        digits_value(encode_utf8(decimal_chars(i))) == i,
    decreases i,
{
    let d = encode_utf8(decimal_chars(i));
    if i < 10 {
        lemma_encode_digit(i);
        assert(d == seq![(48 + i) as u8]);
        assert(d.drop_last() =~= Seq::<u8>::empty());
        assert(digits_value(Seq::<u8>::empty()) == 0);
        assert(digits_value(d) == digits_value(d.drop_last()) * 10 + (d.last() - 0x30) as nat);
    } else {
        lemma_decimal_index(i / 10);
        lemma_encode_digit(i % 10);
        lemma_encode_utf8_concat(decimal_chars(i / 10), seq![digit_char(i % 10)]);
        assert(decimal_chars(i) =~= decimal_chars(i / 10) + seq![digit_char(i % 10)]);
        let prefix = encode_utf8(decimal_chars(i / 10));
        assert(d =~= prefix.push((48 + i % 10) as u8));
        assert(d.drop_last() =~= prefix);
        assert(forall|k: int| 0 <= k < prefix.len() ==> d[k] == prefix[k]);
        assert(d[0] == prefix[0]);
        assert(i / 10 >= 1);
        vstd::arithmetic::div_mod::lemma_fundamental_div_mod(i as int, 10);
        assert(digits_value(d) == digits_value(d.drop_last()) * 10 + (d.last() - 0x30) as nat);
        assert(digits_value(d) == i);
        if prefix[0] == 0x30 {
            assert(prefix.len() == 1);
            assert(prefix =~= seq![0x30u8]);
            assert(prefix.drop_last() =~= Seq::<u8>::empty());
            assert(digits_value(Seq::<u8>::empty()) == 0);
            assert(digits_value(prefix) == 0);
        }
    }
}

pub proof fn lemma_decimal_plain(i: nat)
    ensures
        plain_name(encode_utf8(decimal_chars(i))),
        i <= usize::MAX ==> parse_index(unescape_token(encode_utf8(decimal_chars(i)))) == Some(i),
{
    lemma_decimal_index(i);
    let d = encode_utf8(decimal_chars(i));
    assert(plain_name(d)) by {
        assert forall|k: int| 0 <= k < d.len() implies d[k] != 0x2f && d[k] != 0x7e by {
            assert(is_digit(d[k]));
        }
    }
    lemma_unescape_plain(d);
    assert(is_digit(d[0]));
}

pub proof fn lemma_slash_bytes()
    ensures
        encode_utf8("/"@) == seq![0x2fu8],
{
    reveal_strlit("/");
    let cs = "/"@;
    assert(vstd::utf8::is_ascii_chars(cs));
    vstd::utf8::is_ascii_chars_encode_utf8(cs);
    assert(encode_utf8(cs) =~= seq![0x2fu8]);
}

pub proof fn lemma_child_path(path: Seq<u8>, seg: Seq<u8>)
    ensures
        child_path(path, seg) == path + seq![0x2fu8] + seg,
{
    lemma_slash_bytes();
}

/// Every pointer collected from `t` at `path` leads, below `path`, to the
/// hex-looking string it records.
pub proof fn lemma_pointers_resolve(t: JsonTree, path: Seq<u8>)
    requires
        well_named(t),
    ensures
        forall|k: int| 0 <= k < hex_pointers(t, path).len() ==> resolves_below(t, path, #[trigger] hex_pointers(t, path)[k]),
    decreases t, 0nat,
{
    match t {
        JsonTree::String(s) => {
            if is_hex_like(encode_utf8(s)) {
                let base = split_slash(path);
                let e = (path, encode_utf8(s).len());
                assert(hex_pointers(t, path) == seq![e]);
                assert(path.subrange(0, path.len() as int) =~= path);
                assert(base.subrange(0, base.len() as int) =~= base);
                assert(base.skip(base.len() as int) =~= Seq::<Seq<u8>>::empty());
                assert(locate(t, Seq::<Seq<u8>>::empty()) == Some(Seq::<int>::empty()));
                assert(node_at(t, Seq::<int>::empty()) == Some(t));
                assert(resolves_below(t, path, e));
                assert forall|k: int| 0 <= k < hex_pointers(t, path).len() implies resolves_below(
                    t,
                    path,
                    #[trigger] hex_pointers(t, path)[k],
                ) by {
                    assert(hex_pointers(t, path)[k] == e);
                }
            } else {
                assert(hex_pointers(t, path) =~= Seq::<(Seq<u8>, nat)>::empty());
            }
        },
        JsonTree::Array(items) => {
            lemma_array_pointers_resolve(items, path, items.len());
            assert(hex_pointers(t, path) == array_hex_pointers(items, path, items.len()));
        },
        JsonTree::Object(ms) => {
            lemma_object_pointers_resolve(ms, path, ms.len());
            assert(hex_pointers(t, path) == object_hex_pointers(ms, path, ms.len()));
        },
        _ => {
            assert(hex_pointers(t, path) =~= Seq::<(Seq<u8>, nat)>::empty());
        },
    }
}

pub proof fn lemma_array_pointers_resolve(items: Seq<JsonTree>, path: Seq<u8>, n: nat)
    requires
        well_named_items(items, n),
        items.len() <= usize::MAX + 1,
    ensures
        forall|k: int| 0 <= k < array_hex_pointers(items, path, n).len() ==> resolves_below(
            JsonTree::Array(items),
            path,
            #[trigger] array_hex_pointers(items, path, n)[k],
        ),
    decreases items, n,
{
    if n == 0 || n > items.len() {
    } else {
        let i = (n - 1) as nat;
        lemma_array_pointers_resolve(items, path, i);
        let seg = encode_utf8(decimal_chars(i));
        let cp = child_path(path, seg);
        lemma_pointers_resolve(items[i as int], cp);
        lemma_decimal_plain(i);
        lemma_child_path(path, seg);
        lemma_split_append_plain(path, seg);
        let prev = array_hex_pointers(items, path, i);
        let here = hex_pointers(items[i as int], cp);
        let all = array_hex_pointers(items, path, n);
        assert(all == prev + here);
        let base = split_slash(path);
        let cbase = split_slash(cp);
        assert(cbase == base.push(seg));
        assert forall|k: int| 0 <= k < all.len() implies resolves_below(JsonTree::Array(items), path, #[trigger] all[k]) by {
            if k < prev.len() {
                assert(all[k] == prev[k]);
            } else {
                let e = here[k - prev.len()];
                assert(all[k] == e);
                assert(resolves_below(items[i as int], cp, e));
                assert(e.0.subrange(0, path.len() as int) =~= cp.subrange(0, path.len() as int));
                assert(cp.subrange(0, path.len() as int) =~= path);
                let toks = split_slash(e.0);
                assert(toks.subrange(0, cbase.len() as int) == cbase);
                assert(toks.subrange(0, base.len() as int) =~= cbase.subrange(0, base.len() as int));
                assert(cbase.subrange(0, base.len() as int) =~= base);
                assert(toks[base.len() as int] == cbase[base.len() as int]);
                let rest = toks.skip(base.len() as int);
                assert(rest[0] == seg);
                assert(rest.drop_first() =~= toks.skip(cbase.len() as int));
                assert(i <= usize::MAX);
                let loc = locate(items[i as int], toks.skip(cbase.len() as int))->0;
                assert(locate(JsonTree::Array(items), rest) == Some(seq![i as int] + loc));
                assert((seq![i as int] + loc).drop_first() =~= loc);
            }
        }
    }
}

pub proof fn lemma_first_key_unique(ms: Seq<(Seq<char>, JsonTree)>, i: int)
    requires
        0 <= i < ms.len(),
        forall|j: int| 0 <= j < i ==> encode_utf8(#[trigger] ms[j].0) != encode_utf8(ms[i].0),
    ensures
        first_key_index(ms, encode_utf8(ms[i].0)) == Some(i),
{
    crate::json::lemma_first_key_index(ms, encode_utf8(ms[i].0));
    let f = first_key_index(ms, encode_utf8(ms[i].0));
    if f is None {
        assert(encode_utf8(ms[i].0) != encode_utf8(ms[i].0));
    } else {
        let k = f->0;
        if k < i {
            assert(encode_utf8(ms[k].0) != encode_utf8(ms[i].0));
        } else if k > i {
            assert(encode_utf8(ms[i].0) != encode_utf8(ms[i].0));
        }
    }
}

pub proof fn lemma_object_pointers_resolve(ms: Seq<(Seq<char>, JsonTree)>, path: Seq<u8>, n: nat)
    requires
        well_named_members(ms, n),
    ensures
        forall|k: int| 0 <= k < object_hex_pointers(ms, path, n).len() ==> resolves_below(
            JsonTree::Object(ms),
            path,
            #[trigger] object_hex_pointers(ms, path, n)[k],
        ),
    decreases ms, n,
{
    if n == 0 || n > ms.len() {
    } else {
        let i = (n - 1) as nat;
        lemma_object_pointers_resolve(ms, path, i);
        let seg = encode_utf8(ms[i as int].0);
        let cp = child_path(path, seg);
        lemma_pointers_resolve(ms[i as int].1, cp);
        lemma_child_path(path, seg);
        lemma_split_append_plain(path, seg);
        lemma_unescape_plain(seg);
        lemma_first_key_unique(ms, i as int);
        let prev = object_hex_pointers(ms, path, i);
        let here = hex_pointers(ms[i as int].1, cp);
        let all = object_hex_pointers(ms, path, n);
        assert(all == prev + here);
        let base = split_slash(path);
        let cbase = split_slash(cp);
        assert(cbase == base.push(seg));
        assert forall|k: int| 0 <= k < all.len() implies resolves_below(JsonTree::Object(ms), path, #[trigger] all[k]) by {
            if k < prev.len() {
                assert(all[k] == prev[k]);
            } else {
                let e = here[k - prev.len()];
                assert(all[k] == e);
                assert(resolves_below(ms[i as int].1, cp, e));
                assert(e.0.subrange(0, path.len() as int) =~= cp.subrange(0, path.len() as int));
                assert(cp.subrange(0, path.len() as int) =~= path);
                let toks = split_slash(e.0);
                assert(toks.subrange(0, cbase.len() as int) == cbase);
                assert(toks.subrange(0, base.len() as int) =~= cbase.subrange(0, base.len() as int));
                assert(cbase.subrange(0, base.len() as int) =~= base);
                assert(toks[base.len() as int] == cbase[base.len() as int]);
                let rest = toks.skip(base.len() as int);
                assert(rest[0] == seg);
                assert(rest.drop_first() =~= toks.skip(cbase.len() as int));
                let loc = locate(ms[i as int].1, toks.skip(cbase.len() as int))->0;
                assert(locate(JsonTree::Object(ms), rest) == Some(seq![i as int] + loc));
                assert((seq![i as int] + loc).drop_first() =~= loc);
            }
        }
    }
}

/// The pointer entry `e` leads in `t` to the hex-looking string of the
/// length it records.
pub open spec fn leads_to_hex_string(t: JsonTree, e: (Seq<u8>, nat)) -> bool {
    pointer_location(t, e.0) matches Some(loc) && node_at(t, loc) matches Some(JsonTree::String(s))
        && encode_utf8(s).len() == e.1 && is_hex_like(encode_utf8(s))
}

pub proof fn lemma_ascii_plain(lit: Seq<char>)
    requires
        vstd::utf8::is_ascii_chars(lit),
        forall|i: int| 0 <= i < lit.len() ==> lit[i] != '/' && lit[i] != '~',
    ensures
        plain_name(encode_utf8(lit)),
{
    vstd::utf8::is_ascii_chars_encode_utf8(lit);
    let b = encode_utf8(lit);
    assert forall|i: int| 0 <= i < b.len() implies b[i] != 0x2f && b[i] != 0x7e by {
        assert(lit[i] as u8 == b[i]);
        assert((lit[i] as u32) < 128);
    }
}

/// Every pointer collected under a well-named response's `result` member
/// leads back, resolved as a JSON pointer, to the hex-looking string it
/// records: collection and resolution agree.
pub proof fn law_collected_pointers_lead_back(t: JsonTree)
    requires
        well_named(t),
    ensures
        forall|k: int| 0 <= k < result_pointers(t).len() ==> #[trigger] leads_to_hex_string(t, result_pointers(t)[k]),
{
    if let JsonTree::Object(ms) = t {
        let r = encode_utf8("result"@);
        if let Some(k0) = first_key_index(ms, r) {
            crate::json::lemma_first_key_index(ms, r);
            reveal_strlit("result");
            reveal_strlit("/result");
            reveal_strlit("/");
            lemma_ascii_plain("result"@);
            lemma_slash_bytes();
            assert("/result"@ =~= "/"@ + "result"@);
            lemma_encode_utf8_concat("/"@, "result"@);
            let path = encode_utf8("/result"@);
            assert(path =~= Seq::<u8>::empty() + seq![0x2fu8] + r);
            lemma_split_append_plain(Seq::<u8>::empty(), r);
            let base = split_slash(path);
            assert(split_slash(Seq::<u8>::empty()) == seq![Seq::<u8>::empty()]);
            assert(base == seq![Seq::<u8>::empty()].push(r));
            assert(well_named(ms[k0].1)) by {
                lemma_members_well_named(ms, ms.len(), k0);
            }
            lemma_pointers_resolve(ms[k0].1, path);
            lemma_unescape_plain(r);
            let ps = hex_pointers(ms[k0].1, path);
            assert(result_pointers(t) == ps);
            assert forall|k: int| 0 <= k < ps.len() implies #[trigger] leads_to_hex_string(t, ps[k]) by {
                let e = ps[k];
                assert(resolves_below(ms[k0].1, path, e));
                let toks = split_slash(e.0);
                assert(e.0[0] == path[0]);
                assert(toks.subrange(0, 2) == base);
                assert(base[1] == r);
                assert(toks.subrange(0, 2)[1] == toks[1]);
                assert(toks[1] == r);
                assert(toks.drop_first()[0] == r);
                assert(toks.drop_first().drop_first() =~= toks.skip(2));
                let loc = locate(ms[k0].1, toks.skip(2))->0;
                assert(locate(t, toks.drop_first()) == Some(seq![k0] + loc));
                assert((seq![k0] + loc).drop_first() =~= loc);
            }
        }
    }
}

pub proof fn lemma_members_well_named(ms: Seq<(Seq<char>, JsonTree)>, n: nat, k: int)
    requires
        well_named_members(ms, n),
        0 <= k < n <= ms.len(),
    ensures
        well_named(ms[k].1),
    decreases n,
{
    if k < n - 1 {
        lemma_members_well_named(ms, (n - 1) as nat, k);
    }
}

pub proof fn lemma_paths_come_from(ps: Seq<(Seq<u8>, nat)>)
    ensures
        forall|k: int| 0 <= k < log_data_paths(ps).len() ==> exists|i: int| 0 <= i < ps.len() && #[trigger] log_data_paths(ps)[k] == ps[i].0,
        forall|k: int| 0 <= k < committed_paths(ps).len() ==> exists|i: int| 0 <= i < ps.len() && #[trigger] committed_paths(ps)[k] == ps[i].0,
    decreases ps.len(),
{
    if ps.len() > 0 {
        let prev = ps.drop_last();
        lemma_paths_come_from(prev);
        assert forall|k: int| 0 <= k < log_data_paths(ps).len() implies exists|i: int| 0 <= i < ps.len() && #[trigger] log_data_paths(ps)[k] == ps[i].0 by {
            if k < log_data_paths(prev).len() {
                assert(log_data_paths(ps)[k] == log_data_paths(prev)[k]);
                let i = choose|i: int| 0 <= i < prev.len() && log_data_paths(prev)[k] == prev[i].0;
                assert(prev[i] == ps[i]);
            } else {
                assert(log_data_paths(ps)[k] == ps[ps.len() - 1].0);
            }
        }
        assert forall|k: int| 0 <= k < committed_paths(ps).len() implies exists|i: int| 0 <= i < ps.len() && #[trigger] committed_paths(ps)[k] == ps[i].0 by {
            if k < committed_paths(prev).len() {
                assert(committed_paths(ps)[k] == committed_paths(prev)[k]);
                let i = choose|i: int| 0 <= i < prev.len() && committed_paths(prev)[k] == prev[i].0;
                assert(prev[i] == ps[i]);
            } else {
                assert(committed_paths(ps)[k] == ps[ps.len() - 1].0);
            }
        }
    }
}

/// A well-named response can always be corrupted without running out of
/// positions: every target leads to a hex-looking string, longer than four
/// bytes.
pub proof fn law_well_named_responses_are_safe(t: JsonTree)
    requires
        well_named(t),
    ensures
        corruption_is_safe(t),
{
    let ps = result_pointers(t);
    law_collected_pointers_lead_back(t);
    lemma_paths_come_from(ps);
    let pool = corruption_pool(ps);
    assert forall|k: int| 0 <= k < pool.len() implies target_is_flippable(t, #[trigger] pool[k]) by {
        let i = if log_data_paths(ps).len() > 0 {
            choose|i: int| 0 <= i < ps.len() && log_data_paths(ps)[k] == ps[i].0
        } else {
            choose|i: int| 0 <= i < ps.len() && committed_paths(ps)[k] == ps[i].0
        };
        assert(leads_to_hex_string(t, ps[i]));
    }
}

} // verus!
