//! A JSON document model, and JSON pointers into it.
//!
//! `JsonValue` is the library's own model of `serde_json::Value`, and the
//! pointer functions here are a deliberate, verified model of
//! `Value::pointer_mut`: RFC 6901 pointers split at `/`, tokens unescaped
//! (`~1` then `~0`), members found by the first matching name and elements
//! by a canonical decimal index. The lookup is written here rather than
//! called because `serde_json`'s maps cannot hold a `JsonValue` object one
//! for one (they keep one value per name), and because stating the lookup as
//! `pointer_location` lets the chaos proxy's laws about where corruption
//! lands be proved rather than trusted.

use vstd::prelude::*;
use vstd::utf8::encode_utf8;

verus! {

/// A JSON value. Strings, member names and number literals are kept as
/// their text.
#[derive(Debug, PartialEq, Eq)]
pub enum JsonValue {
    Null,
    Bool(bool),
    Number(String),
    String(String),
    Array(Vec<JsonValue>),
    Object(Vec<JsonMember>),
}

/// One member of a JSON object.
#[derive(Debug, PartialEq, Eq)]
pub struct JsonMember {
    pub key: String,
    pub value: JsonValue,
}

/// The mathematical form of a JSON value.
pub enum JsonTree {
    Null,
    Bool(bool),
    Number(Seq<char>),
    String(Seq<char>),
    Array(Seq<JsonTree>),
    Object(Seq<(Seq<char>, JsonTree)>),
}

pub open spec fn tree_of(v: JsonValue) -> JsonTree
    decreases v,
{
    match v {
        JsonValue::Null => JsonTree::Null,
        JsonValue::Bool(b) => JsonTree::Bool(b),
        JsonValue::Number(n) => JsonTree::Number(n@),
        JsonValue::String(s) => JsonTree::String(s@),
        JsonValue::Array(items) => JsonTree::Array(
            Seq::new(
                items@.len(),
                |i: int|
                    if 0 <= i < items@.len() {
                        tree_of(items@[i])
                    } else {
                        JsonTree::Null
                    },
            ),
        ),
        JsonValue::Object(members) => JsonTree::Object(
            Seq::new(
                members@.len(),
                |i: int|
                    if 0 <= i < members@.len() {
                        (members@[i].key@, tree_of(members@[i].value))
                    } else {
                        (Seq::empty(), JsonTree::Null)
                    },
            ),
        ),
    }
}

/// Rust's `split('/')` on the bytes of a string: the pieces between the
/// slashes, empty ones included.
pub open spec fn split_slash(p: Seq<u8>) -> Seq<Seq<u8>>
    decreases p.len(),
{
    if p.len() == 0 {
        seq![Seq::empty()]
    } else {
        let s = split_slash(p.drop_last());
        if p.last() == 0x2f {
            s.push(Seq::empty())
        } else {
            s.update(s.len() - 1, s.last().push(p.last()))
        }
    }
}

pub proof fn lemma_split_slash_len(p: Seq<u8>)
    ensures
        split_slash(p).len() >= 1,
    decreases p.len(),
{
    if p.len() > 0 {
        lemma_split_slash_len(p.drop_last());
    }
}

/// Every non-overlapping occurrence of the pair `a b`, from the left,
/// replaced by `r` (Rust's `str::replace` for a two-byte pattern and a
/// one-byte replacement).
pub open spec fn replace_pair(s: Seq<u8>, a: u8, b: u8, r: u8) -> Seq<u8>
    decreases s.len(),
{
    if s.len() < 2 {
        s
    } else if s[0] == a && s[1] == b {
        seq![r] + replace_pair(s.skip(2), a, b, r)
    } else {
        seq![s[0]] + replace_pair(s.drop_first(), a, b, r)
    }
}

/// A pointer token with its escapes undone: `~1` becomes `/`, then `~0`
/// becomes `~`.
pub open spec fn unescape_token(t: Seq<u8>) -> Seq<u8> {
    replace_pair(replace_pair(t, 0x7e, 0x31, 0x2f), 0x7e, 0x30, 0x7e)
}

pub open spec fn is_digit(b: u8) -> bool {
    0x30 <= b <= 0x39
}

/// The value of a string of decimal digits.
pub open spec fn digits_value(s: Seq<u8>) -> nat
    decreases s.len(),
{
    if s.len() == 0 {
        0
    } else {
        digits_value(s.drop_last()) * 10 + (s.last() - 0x30) as nat
    }
}

/// An array index as a pointer token gives it: decimal digits, no sign, no
/// leading zero (but `0` itself), and within `usize`.
pub open spec fn parse_index(t: Seq<u8>) -> Option<nat> {
    if t.len() == 0 || t[0] == 0x2b || (t[0] == 0x30 && t.len() != 1) || !(forall|i: int|
        0 <= i < t.len() ==> #[trigger] is_digit(t[i])) || digits_value(t) > usize::MAX {
        None
    } else {
        Some(digits_value(t))
    }
}

/// The position of the first member named `key` (compared as UTF-8 bytes).
pub open spec fn first_key_index(members: Seq<(Seq<char>, JsonTree)>, key: Seq<u8>) -> Option<int>
    decreases members.len(),
{
    if members.len() == 0 {
        None
    } else if encode_utf8(members[0].0) == key {
        Some(0)
    } else {
        match first_key_index(members.drop_first(), key) {
            Some(k) => Some(k + 1),
            None => None,
        }
    }
}

/// The location (child positions from the root) that the unescaped tokens
/// lead to, if each names an existing member or element.
pub open spec fn locate(t: JsonTree, tokens: Seq<Seq<u8>>) -> Option<Seq<int>>
    decreases tokens.len(),
{
    if tokens.len() == 0 {
        Some(seq![])
    } else {
        let tok = unescape_token(tokens[0]);
        match t {
            JsonTree::Object(ms) => match first_key_index(ms, tok) {
                Some(k) => match locate(ms[k].1, tokens.drop_first()) {
                    Some(l) => Some(seq![k] + l),
                    None => None,
                },
                None => None,
            },
            JsonTree::Array(items) => match parse_index(tok) {
                Some(i) => if i < items.len() {
                    match locate(items[i as int], tokens.drop_first()) {
                        Some(l) => Some(seq![i as int] + l),
                        None => None,
                    }
                } else {
                    None
                },
                None => None,
            },
            _ => None,
        }
    }
}

/// Where a JSON pointer leads in `t`, resolved as `serde_json`'s
/// `Value::pointer_mut` resolves it: the empty pointer is the root, any
/// other must start with `/`, and each `/`-separated token is unescaped and
/// then names an object member or an array index.
pub open spec fn pointer_location(t: JsonTree, p: Seq<u8>) -> Option<Seq<int>> {
    if p.len() == 0 {
        Some(seq![])
    } else if p[0] != 0x2f {
        None
    } else {
        locate(t, split_slash(p).drop_first())
    }
}

/// The value at a location, if the location exists.
pub open spec fn node_at(t: JsonTree, loc: Seq<int>) -> Option<JsonTree>
    decreases loc.len(),
{
    if loc.len() == 0 {
        Some(t)
    } else {
        match t {
            JsonTree::Object(ms) => if 0 <= loc[0] < ms.len() {
                node_at(ms[loc[0]].1, loc.drop_first())
            } else {
                None
            },
            JsonTree::Array(items) => if 0 <= loc[0] < items.len() {
                node_at(items[loc[0]], loc.drop_first())
            } else {
                None
            },
            _ => None,
        }
    }
}

/// `t` with the value at `loc` replaced by `leaf` (unchanged where `loc` does
/// not exist).
pub open spec fn update_at(t: JsonTree, loc: Seq<int>, leaf: JsonTree) -> JsonTree
    decreases loc.len(),
{
    if loc.len() == 0 {
        leaf
    } else {
        match t {
            JsonTree::Object(ms) => if 0 <= loc[0] < ms.len() {
                JsonTree::Object(
                    ms.update(loc[0], (ms[loc[0]].0, update_at(ms[loc[0]].1, loc.drop_first(), leaf))),
                )
            } else {
                t
            },
            JsonTree::Array(items) => if 0 <= loc[0] < items.len() {
                JsonTree::Array(items.update(loc[0], update_at(items[loc[0]], loc.drop_first(), leaf)))
            } else {
                t
            },
            _ => t,
        }
    }
}

/// The tokens of a pointer, split at its slashes.
pub fn split_pointer(p: &[u8]) -> (tokens: Vec<Vec<u8>>)
    ensures
        tokens@.map_values(|t: Vec<u8>| t@) == split_slash(p@),
{
    let mut tokens: Vec<Vec<u8>> = Vec::new();
    tokens.push(Vec::new());
    let n = p.len();
    assert(p@.subrange(0, 0) =~= Seq::<u8>::empty());
    assert(tokens@.map_values(|t: Vec<u8>| t@) =~= split_slash(p@.subrange(0, 0)));
    for i in 0..n
        invariant
            n == p@.len(),
            tokens@.len() >= 1,
            tokens@.map_values(|t: Vec<u8>| t@) == split_slash(p@.subrange(0, i as int)),
    {
        let ghost before = tokens@.map_values(|t: Vec<u8>| t@);
        assert(p@.subrange(0, i + 1).drop_last() =~= p@.subrange(0, i as int));
        if p[i] == 0x2f {
            tokens.push(Vec::new());
            assert(tokens@.map_values(|t: Vec<u8>| t@) =~= before.push(Seq::empty()));
        } else {
            let mut last = tokens.pop().unwrap();
            last.push(p[i]);
            tokens.push(last);
            assert(tokens@.map_values(|t: Vec<u8>| t@) =~= before.update(
                before.len() - 1,
                before.last().push(p@[i as int]),
            ));
        }
    }
    assert(p@.subrange(0, n as int) =~= p@);
    tokens
}

/// `replace_pair` on bytes.
pub fn replace_pair_bytes(s: &Vec<u8>, a: u8, b: u8, r: u8) -> (out: Vec<u8>)
    ensures
        out@ == replace_pair(s@, a, b, r),
{
    let n = s.len();
    let mut out: Vec<u8> = Vec::new();
    let mut i: usize = 0;
    assert(s@.skip(0) =~= s@);
    while i < n
        invariant
            n == s@.len(),
            i <= n,
            out@ + replace_pair(s@.skip(i as int), a, b, r) == replace_pair(s@, a, b, r),
        decreases n - i,
    {
        let ghost rest = s@.skip(i as int);
        if i + 1 < n && s[i] == a && s[i + 1] == b {
            out.push(r);
            assert(rest.skip(2) =~= s@.skip(i + 2));
            assert(out@ + replace_pair(s@.skip(i + 2), a, b, r) =~= replace_pair(s@, a, b, r));
            i = i + 2;
        } else {
            out.push(s[i]);
            assert(rest.drop_first() =~= s@.skip(i + 1));
            proof {
                if rest.len() < 2 {
                    assert(rest =~= seq![s@[i as int]]);
                    assert(s@.skip(i + 1) =~= Seq::<u8>::empty());
                }
            }
            assert(out@ + replace_pair(s@.skip(i + 1), a, b, r) =~= replace_pair(s@, a, b, r));
            i = i + 1;
        }
    }
    assert(s@.skip(n as int) =~= Seq::<u8>::empty());
    assert(out@ + Seq::<u8>::empty() =~= out@);
    out
}

/// A pointer token with its escapes undone.
pub fn unescape(t: &Vec<u8>) -> (out: Vec<u8>)
    ensures
        out@ == unescape_token(t@),
{
    let once = replace_pair_bytes(t, 0x7e, 0x31, 0x2f);
    replace_pair_bytes(&once, 0x7e, 0x30, 0x7e)
}

pub proof fn lemma_digits_value_prefix(s: Seq<u8>, j: int)
    requires
        0 <= j <= s.len(),
    ensures
        digits_value(s.subrange(0, j)) <= digits_value(s),
    decreases s.len() - j,
{
    if j < s.len() {
        lemma_digits_value_prefix(s, j + 1);
        assert(s.subrange(0, j + 1).drop_last() =~= s.subrange(0, j));
    } else {
        assert(s.subrange(0, j) =~= s);
    }
}

/// The array index a token denotes, as `parse_index` says.
pub fn parse_index_bytes(t: &[u8]) -> (res: Option<usize>)
    ensures
        match parse_index(t@) {
            Some(v) => res == Some(v as usize),
            None => res is None,
        },
{
    let n = t.len();
    if n == 0 || t[0] == 0x2b || (t[0] == 0x30 && n != 1) {
        return None;
    }
    let mut acc: usize = 0;
    let mut i: usize = 0;
    assert(t@.subrange(0, 0) =~= Seq::<u8>::empty());
    while i < n
        invariant
            n == t@.len(),
            i <= n,
            forall|k: int| 0 <= k < i ==> #[trigger] is_digit(t@[k]),
            acc == digits_value(t@.subrange(0, i as int)),
        decreases n - i,
    {
        let c = t[i];
        if c < 0x30 || c > 0x39 {
            assert(!is_digit(t@[i as int]));
            return None;
        }
        assert(t@.subrange(0, i + 1).drop_last() =~= t@.subrange(0, i as int));
        let step = acc.checked_mul(10);
        let next = match step {
            Some(m) => m.checked_add((c - 0x30) as usize),
            None => None,
        };
        match next {
            Some(v) => {
                acc = v;
            },
            None => {
                proof {
                    lemma_digits_value_prefix(t@, i + 1);
                    if forall|k: int| 0 <= k < n ==> #[trigger] is_digit(t@[k]) {
                        assert(digits_value(t@) > usize::MAX);
                    }
                }
                return None;
            },
        }
        i = i + 1;
    }
    assert(t@.subrange(0, n as int) =~= t@);
    Some(acc)
}

/// A location as child positions.
pub open spec fn loc_view(loc: Seq<usize>) -> Seq<int> {
    loc.map_values(|i: usize| i as int)
}

/// The members of an object value, as its tree holds them.
pub open spec fn member_trees(ms: Seq<JsonMember>) -> Seq<(Seq<char>, JsonTree)> {
    Seq::new(
        ms.len(),
        |i: int|
            if 0 <= i < ms.len() {
                (ms[i].key@, tree_of(ms[i].value))
            } else {
                (Seq::empty(), JsonTree::Null)
            },
    )
}

pub proof fn lemma_first_key_index(members: Seq<(Seq<char>, JsonTree)>, key: Seq<u8>)
    ensures
        match first_key_index(members, key) {
            Some(k) => 0 <= k < members.len() && encode_utf8(members[k].0) == key && forall|j: int|
                0 <= j < k ==> encode_utf8(#[trigger] members[j].0) != key,
            None => forall|j: int| 0 <= j < members.len() ==> encode_utf8(#[trigger] members[j].0) != key,
        },
    decreases members.len(),
{
    if members.len() > 0 && encode_utf8(members[0].0) != key {
        lemma_first_key_index(members.drop_first(), key);
        assert forall|j: int| 1 <= j < members.len() implies members[j] == members.drop_first()[j - 1] by {}
    }
}

/// Whether two byte strings are equal.
pub fn bytes_equal(a: &[u8], b: &[u8]) -> (eq: bool)
    ensures
        eq == (a@ == b@),
{
    if a.len() != b.len() {
        return false;
    }
    let n = a.len();
    let mut i: usize = 0;
    while i < n
        invariant
            n == a@.len(),
            n == b@.len(),
            i <= n,
            forall|k: int| 0 <= k < i ==> a@[k] == b@[k],
        decreases n - i,
    {
        if a[i] != b[i] {
            return false;
        }
        i = i + 1;
    }
    assert(a@ =~= b@);
    true
}

/// The position of the first member named `key`.
pub fn find_member(ms: &Vec<JsonMember>, key: &[u8]) -> (res: Option<usize>)
    ensures
        match first_key_index(member_trees(ms@), key@) {
            Some(k) => res == Some(k as usize),
            None => res is None,
        },
{
    let ghost trees = member_trees(ms@);
    proof {
        lemma_first_key_index(trees, key@);
    }
    let n = ms.len();
    for i in 0..n
        invariant
            n == ms@.len(),
            trees == member_trees(ms@),
            forall|j: int| 0 <= j < i ==> encode_utf8(#[trigger] trees[j].0) != key@,
    {
        assert(trees[i as int].0 == ms@[i as int].key@);
        if bytes_equal(ms[i].key.as_str().as_bytes(), key) {
            proof {
                lemma_first_key_index(trees, key@);
                let f = first_key_index(trees, key@);
                if f is Some {
                    let k = f->0;
                    if k > i {
                        assert(encode_utf8(trees[i as int].0) != key@);
                    } else if k < i {
                        assert(encode_utf8(trees[k].0) != key@);
                    }
                }
            }
            return Some(i);
        }
    }
    proof {
        lemma_first_key_index(trees, key@);
    }
    None
}

pub proof fn lemma_node_at_step(t: JsonTree, loc: Seq<int>, k: int, n: JsonTree)
    requires
        node_at(t, loc) == Some(n),
    ensures
        node_at(t, loc.push(k)) == node_at(n, seq![k]),
    decreases loc.len(),
{
    if loc.len() > 0 {
        assert(loc.push(k).drop_first() =~= loc.drop_first().push(k));
        match t {
            JsonTree::Object(ms) => lemma_node_at_step(ms[loc[0]].1, loc.drop_first(), k, n),
            JsonTree::Array(items) => lemma_node_at_step(items[loc[0]], loc.drop_first(), k, n),
            _ => {},
        }
    } else {
        assert(loc.push(k) =~= seq![k]);
    }
}

/// The location a pointer leads to and the string there, when it leads to a
/// string (`None` when it leads nowhere or to another kind of value).
pub fn pointer_string(root: &JsonValue, p: &[u8]) -> (res: Option<(Vec<usize>, String)>)
    ensures
        match res {
            Some((loc, s)) => pointer_location(tree_of(*root), p@) == Some(loc_view(loc@)) && node_at(
                tree_of(*root),
                loc_view(loc@),
            ) == Some(JsonTree::String(s@)),
            None => !(pointer_location(tree_of(*root), p@) matches Some(l) && node_at(tree_of(*root), l) matches Some(
                JsonTree::String(_),
            )),
        },
{
    let ghost t = tree_of(*root);
    let mut cur: &JsonValue = root;
    let mut loc: Vec<usize> = Vec::new();
    if p.len() != 0 {
        if p[0] != 0x2f {
            return None;
        }
        let tokens = split_pointer(p);
        let ghost toks = tokens@.map_values(|x: Vec<u8>| x@);
        proof {
            lemma_split_slash_len(p@);
            assert(toks.skip(1) =~= toks.drop_first());
            assert(loc_view(loc@) =~= Seq::<int>::empty());
            assert(Seq::<int>::empty() + Seq::<int>::empty() =~= Seq::<int>::empty());
        }
        let n = tokens.len();
        let mut i: usize = 1;
        while i < n
            invariant
                n == tokens@.len(),
                toks == tokens@.map_values(|x: Vec<u8>| x@),
                toks == split_slash(p@),
                1 <= i <= n,
                t == tree_of(*root),
                node_at(t, loc_view(loc@)) == Some(tree_of(*cur)),
                locate(t, toks.skip(1)) == match locate(tree_of(*cur), toks.skip(i as int)) {
                    Some(l) => Some(loc_view(loc@) + l),
                    None => None,
                },
            decreases n - i,
        {
            let tok = unescape(&tokens[i]);
            let ghost rest = toks.skip(i as int);
            let ghost ct = tree_of(*cur);
            assert(rest[0] == toks[i as int]);
            assert(rest.drop_first() =~= toks.skip(i + 1));
            assert(tok@ == unescape_token(rest[0]));
            let ghost old_loc = loc_view(loc@);
            match cur {
                JsonValue::Object(ms) => {
                    let key = tok.as_slice();
                    let found = find_member(ms, key);
                    assert(key@ == tok@);
                    assert(ms@.len() == ms.len());
                    let k = match found {
                        Some(k) => k,
                        None => {
                            assert(ct->Object_0 =~= member_trees(ms@));
                            return None;
                        },
                    };
                    assert(ct->Object_0 =~= member_trees(ms@));
                    proof {
                        lemma_first_key_index(member_trees(ms@), tok@);
                        lemma_node_at_step(t, old_loc, k as int, ct);
                    }
                    loc.push(k);
                    assert(loc_view(loc@) =~= old_loc.push(k as int));
                    cur = &ms[k].value;
                    assert(member_trees(ms@)[k as int].1 == tree_of(ms@[k as int].value));
                    proof {
                        assert(seq![k as int].drop_first() =~= Seq::<int>::empty());
                        assert(first_key_index(member_trees(ms@), tok@) == Some(k as int));
                        assert(ct->Object_0[k as int].1 == tree_of(*cur));
                        assert(node_at(tree_of(*cur), Seq::<int>::empty()) == Some(tree_of(*cur)));
                        assert(node_at(ct, seq![k as int]) == Some(tree_of(*cur)));
                        assert(locate(ct, rest) == match locate(tree_of(*cur), rest.drop_first()) {
                            Some(l) => Some(seq![k as int] + l),
                            None => None,
                        });
                        match locate(tree_of(*cur), toks.skip(i + 1)) {
                            Some(l) => {
                                assert(old_loc + (seq![k as int] + l) =~= loc_view(loc@) + l);
                            },
                            None => {},
                        }
                    }
                },
                JsonValue::Array(items) => {
                    let parsed = parse_index_bytes(tok.as_slice());
                    let idx = match parsed {
                        Some(idx) => idx,
                        None => {
                            return None;
                        },
                    };
                    if idx >= items.len() {
                        return None;
                    }
                    proof {
                        lemma_node_at_step(t, old_loc, idx as int, ct);
                    }
                    loc.push(idx);
                    assert(loc_view(loc@) =~= old_loc.push(idx as int));
                    cur = &items[idx];
                    proof {
                        assert(seq![idx as int].drop_first() =~= Seq::<int>::empty());
                        assert(ct->Array_0[idx as int] == tree_of(items@[idx as int]));
                        assert(node_at(tree_of(*cur), Seq::<int>::empty()) == Some(tree_of(*cur)));
                        assert(node_at(ct, seq![idx as int]) == Some(tree_of(*cur)));
                        assert(node_at(t, loc_view(loc@)) == Some(tree_of(*cur)));
                        assert(locate(ct, rest) == match locate(tree_of(*cur), rest.drop_first()) {
                            Some(l) => Some(seq![idx as int] + l),
                            None => None,
                        });
                        match locate(tree_of(*cur), toks.skip(i + 1)) {
                            Some(l) => {
                                assert(old_loc + (seq![idx as int] + l) =~= loc_view(loc@) + l);
                            },
                            None => {},
                        }
                    }
                },
                _ => {
                    return None;
                },
            }
            i = i + 1;
        }
        proof {
            assert(toks.skip(n as int) =~= Seq::<Seq<u8>>::empty());
            assert(loc_view(loc@) + Seq::<int>::empty() =~= loc_view(loc@));
        }
    } else {
        assert(loc_view(loc@) =~= Seq::<int>::empty());
    }
    match cur {
        JsonValue::String(s) => Some((loc, s.clone())),
        _ => None,
    }
}

/// `v` with the value at `loc` (from position `k` on) replaced by `leaf`.
pub fn replace_at(v: JsonValue, loc: &Vec<usize>, k: usize, leaf: JsonValue) -> (out: JsonValue)
    requires
        k <= loc@.len(),
        node_at(tree_of(v), loc_view(loc@).skip(k as int)) is Some,
    ensures
        tree_of(out) == update_at(tree_of(v), loc_view(loc@).skip(k as int), tree_of(leaf)),
    decreases loc@.len() - k,
{
    let ghost path = loc_view(loc@).skip(k as int);
    if k == loc.len() {
        assert(path =~= Seq::<int>::empty());
        return leaf;
    }
    let idx = loc[k];
    assert(path[0] == idx as int);
    assert(path.drop_first() =~= loc_view(loc@).skip(k + 1));
    match v {
        JsonValue::Object(mut ms) => {
            let ghost before = member_trees(ms@);
            assert(tree_of(JsonValue::Object(ms))->Object_0 =~= before);
            let m = ms.remove(idx);
            let JsonMember { key, value } = m;
            let new_value = replace_at(value, loc, k + 1, leaf);
            ms.insert(idx, JsonMember { key, value: new_value });
            let out = JsonValue::Object(ms);
            assert(tree_of(out)->Object_0 =~= before.update(
                idx as int,
                (before[idx as int].0, update_at(before[idx as int].1, path.drop_first(), tree_of(leaf))),
            ));
            out
        },
        JsonValue::Array(mut items) => {
            let ghost before = tree_of(JsonValue::Array(items))->Array_0;
            let item = items.remove(idx);
            let new_item = replace_at(item, loc, k + 1, leaf);
            items.insert(idx, new_item);
            let out = JsonValue::Array(items);
            assert(tree_of(out)->Array_0 =~= before.update(
                idx as int,
                update_at(before[idx as int], path.drop_first(), tree_of(leaf)),
            ));
            out
        },
        other => other,
    }
}

/// Whether `a` is a prefix of `b`.
pub open spec fn is_prefix_of(a: Seq<int>, b: Seq<int>) -> bool {
    a.len() <= b.len() && b.subrange(0, a.len() as int) == a
}

/// After replacing the value at `loc`, reading `loc` gives the new value.
pub proof fn law_update_reads_back(t: JsonTree, loc: Seq<int>, leaf: JsonTree)
    requires
        node_at(t, loc) is Some,
    ensures
        node_at(update_at(t, loc, leaf), loc) == Some(leaf),
    decreases loc.len(),
{
    if loc.len() > 0 {
        match t {
            JsonTree::Object(ms) => {
                law_update_reads_back(ms[loc[0]].1, loc.drop_first(), leaf);
            },
            JsonTree::Array(items) => {
                law_update_reads_back(items[loc[0]], loc.drop_first(), leaf);
            },
            _ => {},
        }
    }
}

/// Replacing the value at `loc` leaves every location that is neither above
/// nor below `loc` as it was.
pub proof fn law_update_is_local(t: JsonTree, loc: Seq<int>, leaf: JsonTree, other: Seq<int>)
    requires
        node_at(t, loc) is Some,
        !is_prefix_of(other, loc),
        !is_prefix_of(loc, other),
    ensures
        node_at(update_at(t, loc, leaf), other) == node_at(t, other),
    decreases loc.len(),
{
    if other.len() == 0 {
        assert(loc.subrange(0, 0) =~= other);
    }
    if loc.len() == 0 {
        assert(other.subrange(0, 0) =~= loc);
    }
    let k = loc[0];
    let j = other[0];
    if k == j {
        assert(!is_prefix_of(other.drop_first(), loc.drop_first())) by {
            if is_prefix_of(other.drop_first(), loc.drop_first()) {
                assert(loc.subrange(0, other.len() as int) =~= seq![k] + loc.drop_first().subrange(
                    0,
                    other.len() - 1,
                ));
                assert(other =~= seq![j] + other.drop_first());
            }
        }
        assert(!is_prefix_of(loc.drop_first(), other.drop_first())) by {
            if is_prefix_of(loc.drop_first(), other.drop_first()) {
                assert(other.subrange(0, loc.len() as int) =~= seq![j] + other.drop_first().subrange(
                    0,
                    loc.len() - 1,
                ));
                assert(loc =~= seq![k] + loc.drop_first());
            }
        }
        match t {
            JsonTree::Object(ms) => {
                law_update_is_local(ms[k].1, loc.drop_first(), leaf, other.drop_first());
            },
            JsonTree::Array(items) => {
                law_update_is_local(items[k], loc.drop_first(), leaf, other.drop_first());
            },
            _ => {},
        }
    }
}

} // verus!
