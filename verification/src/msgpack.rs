//! MessagePack documents as the response parsers read them.

use vstd::prelude::*;

use crate::text::same;
use crate::text::{occurs, occurs_at};

verus! {

/// The contents of a document, as far as the parsers tell values apart.
pub enum Tree {
    /// An integer that fits in 64 bits, signed.
    Int(i64),
    /// A string of valid UTF-8.
    Text(Seq<char>),
    List(Seq<Tree>),
    Dict(Seq<(Tree, Tree)>),
    /// Nil, booleans, floats, raw bytes, extensions, larger integers, invalid strings.
    Other,
}

/// A decoded document node.
pub enum Node {
    Int(i64),
    Text(String),
    List(Vec<Node>),
    Dict(Vec<(Node, Node)>),
    Other,
}

impl Node {
    /// What this node holds.
    pub open spec fn tree(&self) -> Tree
        decreases self,
    {
        match self {
            Node::Int(n) => Tree::Int(*n),
            Node::Text(s) => Tree::Text(s@),
            Node::List(l) => Tree::List(
                Seq::new(
                    l@.len(),
                    |i: int|
                        if 0 <= i < l@.len() {
                            l@[i].tree()
                        } else {
                            Tree::Other
                        },
                ),
            ),
            Node::Dict(d) => Tree::Dict(
                Seq::new(
                    d@.len(),
                    |i: int|
                        if 0 <= i < d@.len() {
                            (d@[i].0.tree(), d@[i].1.tree())
                        } else {
                            (Tree::Other, Tree::Other)
                        },
                ),
            ),
            Node::Other => Tree::Other,
        }
    }
}

impl View for Node {
    type V = Tree;

    open spec fn view(&self) -> Tree {
        self.tree()
    }
}

/// A MessagePack value of the `rmpv` crate.
#[verifier::external_type_specification]
#[verifier::external_body]
pub struct ExRmpvValue(rmpv::Value);

/// What an `rmpv::Value` holds.
pub uninterp spec fn rmpv_tree(v: rmpv::Value) -> Tree;

/// `rmpv::Value::as_i64`: the integer, when the value is one and fits.
pub assume_specification[ rmpv::Value::as_i64 ](v: &rmpv::Value) -> (r: Option<i64>)
    ensures
        r == (match rmpv_tree(*v) {
            Tree::Int(n) => Some(n),
            _ => None,
        }),
;

/// `rmpv::Value::as_str`: the text, when the value is a string of valid UTF-8.
pub assume_specification[ rmpv::Value::as_str ](v: &rmpv::Value) -> (r: Option<&str>)
    ensures
        (match r {
            Some(s) => rmpv_tree(*v) == Tree::Text(s@),
            None => !(rmpv_tree(*v) is Text),
        }),
;

/// `rmpv::Value::as_array`: the elements, when the value is an array.
pub assume_specification[ rmpv::Value::as_array ](v: &rmpv::Value) -> (r: Option<&Vec<rmpv::Value>>)
    ensures
        (match r {
            Some(a) => rmpv_tree(*v) == Tree::List(a@.map_values(|x: rmpv::Value| rmpv_tree(x))),
            None => !(rmpv_tree(*v) is List),
        }),
;

/// `rmpv::Value::as_map`: the key and value pairs in order, when the value is a map.
pub assume_specification[ rmpv::Value::as_map ](v: &rmpv::Value) -> (r: Option<
    &Vec<(rmpv::Value, rmpv::Value)>,
>)
    ensures
        (match r {
            Some(m) => rmpv_tree(*v) == Tree::Dict(
                m@.map_values(|p: (rmpv::Value, rmpv::Value)| (rmpv_tree(p.0), rmpv_tree(p.1))),
            ),
            None => !(rmpv_tree(*v) is Dict),
        }),
;

/// Copy an `rmpv` value into a [`Node`].
fn from_rmpv(v: &rmpv::Value) -> (r: Node)
    ensures
        r@ == rmpv_tree(*v),
    decreases rmpv_tree(*v),
{
    if let Some(n) = v.as_i64() {
        return Node::Int(n);
    }
    if let Some(s) = v.as_str() {
        return Node::Text(s.to_owned());
    }
    if let Some(a) = v.as_array() {
        let mut out: Vec<Node> = Vec::new();
        let ghost kids = rmpv_tree(*v)->List_0;
        let mut i: usize = 0;
        while i < a.len()
            invariant
                i <= a.len(),
                out.len() == i,
                rmpv_tree(*v) == Tree::List(kids),
                kids == a@.map_values(|x: rmpv::Value| rmpv_tree(x)),
                forall|j: int| 0 <= j < i ==> (#[trigger] out@[j])@ == kids[j],
            decreases a.len() - i,
        {
            assert(kids[i as int] == rmpv_tree(a@[i as int]));
            assert(decreases_to!(rmpv_tree(*v) => rmpv_tree(*v)->List_0[i as int]));
            out.push(from_rmpv(&a[i]));
            i = i + 1;
        }
        let r = Node::List(out);
        assert(r@->List_0 =~= kids);
        return r;
    }
    if let Some(m) = v.as_map() {
        let mut out: Vec<(Node, Node)> = Vec::new();
        let ghost kids = rmpv_tree(*v)->Dict_0;
        let mut i: usize = 0;
        while i < m.len()
            invariant
                i <= m.len(),
                out.len() == i,
                rmpv_tree(*v) == Tree::Dict(kids),
                kids == m@.map_values(
                    |p: (rmpv::Value, rmpv::Value)| (rmpv_tree(p.0), rmpv_tree(p.1)),
                ),
                forall|j: int| 0 <= j < i ==> (out@[j].0@, (#[trigger] out@[j]).1@) == kids[j],
            decreases m.len() - i,
        {
            assert(kids[i as int] == (rmpv_tree(m@[i as int].0), rmpv_tree(m@[i as int].1)));
            assert(decreases_to!(rmpv_tree(*v) => rmpv_tree(*v)->Dict_0[i as int].0));
            assert(decreases_to!(rmpv_tree(*v) => rmpv_tree(*v)->Dict_0[i as int].1));
            let k = from_rmpv(&m[i].0);
            let x = from_rmpv(&m[i].1);
            out.push((k, x));
            i = i + 1;
        }
        let r = Node::Dict(out);
        assert(r@->Dict_0 =~= kids);
        return r;
    }
    Node::Other
}

/// What `rmpv` decodes from the front of a byte string; `None` where it reports an error.
pub uninterp spec fn msgpack_tree(bytes: Seq<u8>) -> Option<Tree>;

/// `rmpv::decode::read_value` on a reader over `bytes`: the value it decodes, or `None` for any of
/// its errors. Which value a byte string encodes is left to the name `msgpack_tree`.
#[verifier::external_body]
fn read_value(bytes: &[u8]) -> (r: Option<rmpv::Value>)
    ensures
        (match r {
            Some(v) => Some(rmpv_tree(v)),
            None => None,
        }) == msgpack_tree(bytes@),
{
    let mut cur = std::io::Cursor::new(bytes);
    rmpv::decode::read_value(&mut cur).ok()
}

/// Decode one MessagePack document.
pub fn decode(bytes: &[u8]) -> (r: Option<Node>)
    ensures
        (match r {
            Some(n) => Some(n@),
            None => None,
        }) == msgpack_tree(bytes@),
{
    match read_value(bytes) {
        Some(v) => Some(from_rmpv(&v)),
        None => None,
    }
}

impl Tree {
    /// The integer this is, if it is one.
    pub open spec fn as_int(self) -> Option<i64> {
        match self {
            Tree::Int(n) => Some(n),
            _ => None,
        }
    }

    /// The string this is, if it is one.
    pub open spec fn text(self) -> Option<Seq<char>> {
        match self {
            Tree::Text(s) => Some(s),
            _ => None,
        }
    }

    /// The elements, if this is an array.
    pub open spec fn list(self) -> Option<Seq<Tree>> {
        match self {
            Tree::List(l) => Some(l),
            _ => None,
        }
    }

    /// The pairs, if this is a map.
    pub open spec fn dict(self) -> Option<Seq<(Tree, Tree)>> {
        match self {
            Tree::Dict(d) => Some(d),
            _ => None,
        }
    }

    /// The value of the first pair whose key is the string `key`, if this is a map with one.
    pub open spec fn get(self, key: Seq<char>) -> Option<Tree> {
        match self {
            Tree::Dict(d) => pair_get(d, key),
            _ => None,
        }
    }

    /// The integer under `key`, if there is one.
    pub open spec fn get_int(self, key: Seq<char>) -> Option<i64> {
        match self.get(key) {
            Some(t) => t.as_int(),
            None => None,
        }
    }

    /// The integer under `key`, or 0.
    pub open spec fn int_or_zero(self, key: Seq<char>) -> i64 {
        or_zero(self.get_int(key))
    }

    /// The array under `key`, if there is one.
    pub open spec fn get_list(self, key: Seq<char>) -> Option<Seq<Tree>> {
        match self.get(key) {
            Some(t) => t.list(),
            None => None,
        }
    }

    /// The integer under the first of `keys` that has one.
    pub open spec fn first_int(self, keys: Seq<Seq<char>>) -> Option<i64>
        decreases keys.len(),
    {
        if keys.len() == 0 {
            None
        } else {
            match self.get_int(keys[0]) {
                Some(n) => Some(n),
                None => self.first_int(keys.drop_first()),
            }
        }
    }

    /// The array under the first of `keys` that has one.
    pub open spec fn first_list(self, keys: Seq<Seq<char>>) -> Option<Seq<Tree>>
        decreases keys.len(),
    {
        if keys.len() == 0 {
            None
        } else {
            match self.get_list(keys[0]) {
                Some(l) => Some(l),
                None => self.first_list(keys.drop_first()),
            }
        }
    }
}

/// An integer that may be missing, with 0 for a missing one.
pub open spec fn or_zero(n: Option<i64>) -> i64 {
    match n {
        Some(v) => v,
        None => 0,
    }
}

/// The value of the first pair whose key is the string `key`.
pub open spec fn pair_get(d: Seq<(Tree, Tree)>, key: Seq<char>) -> Option<Tree>
    decreases d.len(),
{
    if d.len() == 0 {
        None
    } else if d[0].0 == Tree::Text(key) {
        Some(d[0].1)
    } else {
        pair_get(d.drop_first(), key)
    }
}

/// Every value stored under `key` anywhere in the document, depth first, a map's own entry before
/// what lies below it.
pub open spec fn hits(t: Tree, key: Seq<char>) -> Seq<Tree>
    decreases t, 0nat,
{
    match t {
        Tree::List(l) => list_hits(l, key, l.len()),
        Tree::Dict(d) => dict_hits(d, key, d.len()),
        _ => Seq::empty(),
    }
}

/// [`hits`] in the first `n` elements of an array.
pub open spec fn list_hits(l: Seq<Tree>, key: Seq<char>, n: nat) -> Seq<Tree>
    decreases l, n,
{
    if n == 0 || n > l.len() {
        Seq::empty()
    } else {
        list_hits(l, key, (n - 1) as nat) + hits(l[n - 1], key)
    }
}

/// [`hits`] in the first `n` pairs of a map.
pub open spec fn dict_hits(d: Seq<(Tree, Tree)>, key: Seq<char>, n: nat) -> Seq<Tree>
    decreases d, n,
{
    if n == 0 || n > d.len() {
        Seq::empty()
    } else {
        dict_hits(d, key, (n - 1) as nat) + (if d[n - 1].0 == Tree::Text(key) {
            seq![d[n - 1].1]
        } else {
            Seq::empty()
        }) + hits(d[n - 1].1, key)
    }
}

/// The first value stored under `key` anywhere in the document.
pub open spec fn first_hit(t: Tree, key: Seq<char>) -> Option<Tree> {
    if hits(t, key).len() > 0 {
        Some(hits(t, key)[0])
    } else {
        None
    }
}

/// The first integer in a row of values.
pub open spec fn first_int_of(s: Seq<Tree>) -> Option<i64>
    decreases s.len(),
{
    if s.len() == 0 {
        None
    } else {
        match s[0] {
            Tree::Int(n) => Some(n),
            _ => first_int_of(s.drop_first()),
        }
    }
}

/// The first string in a row of values.
pub open spec fn first_text_of(s: Seq<Tree>) -> Option<Seq<char>>
    decreases s.len(),
{
    if s.len() == 0 {
        None
    } else {
        match s[0] {
            Tree::Text(t) => Some(t),
            _ => first_text_of(s.drop_first()),
        }
    }
}

/// The elements of the first array in a row of values.
pub open spec fn first_list_of(s: Seq<Tree>) -> Option<Seq<Tree>>
    decreases s.len(),
{
    if s.len() == 0 {
        None
    } else {
        match s[0] {
            Tree::List(l) => Some(l),
            _ => first_list_of(s.drop_first()),
        }
    }
}

/// What a row of nodes holds.
pub open spec fn trees(s: Seq<Node>) -> Seq<Tree> {
    s.map_values(|n: Node| n@)
}

/// What a row of borrowed nodes holds.
pub open spec fn trees_ref(s: Seq<&Node>) -> Seq<Tree> {
    s.map_values(|n: &Node| n@)
}

/// What a row of pairs holds.
pub open spec fn pairs(s: Seq<(Node, Node)>) -> Seq<(Tree, Tree)> {
    s.map_values(|p: (Node, Node)| (p.0@, p.1@))
}

/// What a row of keys spells.
pub open spec fn keys_of(s: Seq<&str>) -> Seq<Seq<char>> {
    s.map_values(|k: &str| k@)
}

/// The integer a node is.
pub fn node_int(v: &Node) -> (r: Option<i64>)
    ensures
        r == v@.as_int(),
{
    match v {
        Node::Int(n) => Some(*n),
        _ => None,
    }
}

/// The string a node is.
pub fn node_text(v: &Node) -> (r: Option<&String>)
    ensures
        (match r {
            Some(s) => Some(s@),
            None => None,
        }) == v@.text(),
{
    match v {
        Node::Text(s) => Some(s),
        _ => None,
    }
}

/// The elements of an array node.
pub fn as_arr(v: &Node) -> (r: Option<&Vec<Node>>)
    ensures
        (match r {
            Some(l) => Some(trees(l@)),
            None => None,
        }) == v@.list(),
{
    match v {
        Node::List(l) => {
            assert(v@->List_0 =~= trees(l@));
            Some(l)
        },
        _ => None,
    }
}

/// The pairs of a map node.
pub fn node_pairs(v: &Node) -> (r: Option<&Vec<(Node, Node)>>)
    ensures
        (match r {
            Some(d) => Some(pairs(d@)),
            None => None,
        }) == v@.dict(),
{
    match v {
        Node::Dict(d) => {
            assert(v@->Dict_0 =~= pairs(d@));
            Some(d)
        },
        _ => None,
    }
}

/// Whether a node is the string `key`.
fn is_text(v: &Node, key: &str) -> (r: bool)
    ensures
        r == (v@ == Tree::Text(key@)),
{
    match v {
        Node::Text(s) => same(s.as_str(), key),
        _ => false,
    }
}

/// The value of the first pair of a map node whose key is the string `key`.
pub fn map_get<'a>(v: &'a Node, key: &str) -> (r: Option<&'a Node>)
    ensures
        (match r {
            Some(n) => Some(n@),
            None => None,
        }) == v@.get(key@),
{
    match node_pairs(v) {
        None => None,
        Some(d) => {
            let ghost all = pairs(d@);
            let mut i: usize = 0;
            assert(all.skip(0) =~= all);
            while i < d.len()
                invariant
                    i <= d.len(),
                    all == pairs(d@),
                    v@.get(key@) == pair_get(all.skip(i as int), key@),
                decreases d.len() - i,
            {
                assert(all[i as int] == (d@[i as int].0@, d@[i as int].1@));
                if is_text(&d[i].0, key) {
                    return Some(&d[i].1);
                }
                assert(all.skip(i as int).drop_first() =~= all.skip(i as int + 1));
                i = i + 1;
            }
            None
        },
    }
}

/// The integer under `key`.
pub fn get_int(v: &Node, key: &str) -> (r: Option<i64>)
    ensures
        r == v@.get_int(key@),
{
    match map_get(v, key) {
        Some(n) => node_int(n),
        None => None,
    }
}

/// The integer under `key`, or 0.
pub fn int_or_zero(v: &Node, key: &str) -> (r: i64)
    ensures
        r == v@.int_or_zero(key@),
{
    match get_int(v, key) {
        Some(n) => n,
        None => 0,
    }
}

/// The array under `key`.
pub fn get_list<'a>(v: &'a Node, key: &str) -> (r: Option<&'a Vec<Node>>)
    ensures
        (match r {
            Some(l) => Some(trees(l@)),
            None => None,
        }) == v@.get_list(key@),
{
    match map_get(v, key) {
        Some(n) => as_arr(n),
        None => None,
    }
}

/// The integer under the first of `keys` that has one.
pub fn first_int(v: &Node, keys: &[&str]) -> (r: Option<i64>)
    ensures
        r == v@.first_int(keys_of(keys@)),
{
    let ghost all = keys_of(keys@);
    let mut i: usize = 0;
    assert(all.skip(0) =~= all);
    while i < keys.len()
        invariant
            i <= keys.len(),
            all == keys_of(keys@),
            v@.first_int(all) == v@.first_int(all.skip(i as int)),
        decreases keys.len() - i,
    {
        assert(all.skip(i as int)[0] == keys@[i as int]@);
        if let Some(n) = get_int(v, keys[i]) {
            return Some(n);
        }
        assert(all.skip(i as int).drop_first() =~= all.skip(i as int + 1));
        i = i + 1;
    }
    None
}

/// The array under the first of `keys` that has one.
pub fn first_list<'a>(v: &'a Node, keys: &[&str]) -> (r: Option<&'a Vec<Node>>)
    ensures
        (match r {
            Some(l) => Some(trees(l@)),
            None => None,
        }) == v@.first_list(keys_of(keys@)),
{
    let ghost all = keys_of(keys@);
    let mut i: usize = 0;
    assert(all.skip(0) =~= all);
    while i < keys.len()
        invariant
            i <= keys.len(),
            all == keys_of(keys@),
            v@.first_list(all) == v@.first_list(all.skip(i as int)),
        decreases keys.len() - i,
    {
        assert(all.skip(i as int)[0] == keys@[i as int]@);
        if let Some(l) = get_list(v, keys[i]) {
            return Some(l);
        }
        assert(all.skip(i as int).drop_first() =~= all.skip(i as int + 1));
        i = i + 1;
    }
    None
}

/// Append every value stored under `key` anywhere in the document.
pub fn find_key<'a>(v: &'a Node, key: &str, out: &mut Vec<&'a Node>)
    ensures
        trees_ref(final(out)@) == trees_ref(old(out)@) + hits(v@, key@),
    decreases v,
{
    let ghost before = trees_ref(out@);
    match v {
        Node::List(l) => {
            let ghost kids = trees(l@);
            assert(v@->List_0 =~= kids);
            let mut i: usize = 0;
            while i < l.len()
                invariant
                    i <= l.len(),
                    *v == Node::List(*l),
                    kids == trees(l@),
                    trees_ref(out@) == before + list_hits(kids, key@, i as nat),
                decreases l.len() - i,
            {
                assert(kids[i as int] == l@[i as int]@);
                assert(decreases_to!(*v => v->List_0@[i as int]));
                find_key(&l[i], key, out);
                i = i + 1;
                assert(trees_ref(out@) =~= before + list_hits(kids, key@, i as nat));
            }
        },
        Node::Dict(d) => {
            let ghost kids = pairs(d@);
            assert(v@->Dict_0 =~= kids);
            let mut i: usize = 0;
            while i < d.len()
                invariant
                    i <= d.len(),
                    *v == Node::Dict(*d),
                    kids == pairs(d@),
                    trees_ref(out@) == before + dict_hits(kids, key@, i as nat),
                decreases d.len() - i,
            {
                assert(kids[i as int] == (d@[i as int].0@, d@[i as int].1@));
                assert(decreases_to!(*v => v->Dict_0@[i as int].1));
                let ghost prev = out@;
                if is_text(&d[i].0, key) {
                    out.push(&d[i].1);
                    assert(trees_ref(out@) =~= trees_ref(prev).push(d@[i as int].1@));
                }
                find_key(&d[i].1, key, out);
                i = i + 1;
                assert(trees_ref(out@) =~= before + dict_hits(kids, key@, i as nat));
            }
        },
        _ => {
            assert(trees_ref(out@) =~= before + hits(v@, key@));
        },
    }
}

/// Every value stored under `key` anywhere in the document.
pub fn find_all<'a>(v: &'a Node, key: &str) -> (r: Vec<&'a Node>)
    ensures
        trees_ref(r@) == hits(v@, key@),
{
    let mut out: Vec<&'a Node> = Vec::new();
    find_key(v, key, &mut out);
    assert(trees_ref(out@) =~= hits(v@, key@));
    out
}

/// The first value stored under `key` anywhere in the document.
pub fn find_first<'a>(v: &'a Node, key: &str) -> (r: Option<&'a Node>)
    ensures
        (match r {
            Some(n) => Some(n@),
            None => None,
        }) == first_hit(v@, key@),
{
    let out = find_all(v, key);
    if out.len() > 0 {
        assert(trees_ref(out@)[0] == out@[0]@);
        Some(out[0])
    } else {
        None
    }
}

/// The first integer stored under `key` anywhere in the document.
pub fn find_int(v: &Node, key: &str) -> (r: Option<i64>)
    ensures
        r == first_int_of(hits(v@, key@)),
{
    let out = find_all(v, key);
    let ghost all = trees_ref(out@);
    let mut i: usize = 0;
    assert(all.skip(0) =~= all);
    while i < out.len()
        invariant
            i <= out.len(),
            all == trees_ref(out@),
            first_int_of(hits(v@, key@)) == first_int_of(all.skip(i as int)),
        decreases out.len() - i,
    {
        assert(all.skip(i as int)[0] == out@[i as int]@);
        if let Some(n) = node_int(out[i]) {
            return Some(n);
        }
        assert(all.skip(i as int).drop_first() =~= all.skip(i as int + 1));
        i = i + 1;
    }
    None
}

/// The first string stored under `key` anywhere in the document.
pub fn find_text<'a>(v: &'a Node, key: &str) -> (r: Option<&'a String>)
    ensures
        (match r {
            Some(s) => Some(s@),
            None => None,
        }) == first_text_of(hits(v@, key@)),
{
    let out = find_all(v, key);
    let ghost all = trees_ref(out@);
    let mut i: usize = 0;
    assert(all.skip(0) =~= all);
    while i < out.len()
        invariant
            i <= out.len(),
            all == trees_ref(out@),
            first_text_of(hits(v@, key@)) == first_text_of(all.skip(i as int)),
        decreases out.len() - i,
    {
        assert(all.skip(i as int)[0] == out@[i as int]@);
        if let Some(s) = node_text(out[i]) {
            return Some(s);
        }
        assert(all.skip(i as int).drop_first() =~= all.skip(i as int + 1));
        i = i + 1;
    }
    None
}

/// The first array stored under `key` anywhere in the document.
pub fn find_list<'a>(v: &'a Node, key: &str) -> (r: Option<&'a Vec<Node>>)
    ensures
        (match r {
            Some(l) => Some(trees(l@)),
            None => None,
        }) == first_list_of(hits(v@, key@)),
{
    let out = find_all(v, key);
    let ghost all = trees_ref(out@);
    let mut i: usize = 0;
    assert(all.skip(0) =~= all);
    while i < out.len()
        invariant
            i <= out.len(),
            all == trees_ref(out@),
            first_list_of(hits(v@, key@)) == first_list_of(all.skip(i as int)),
        decreases out.len() - i,
    {
        assert(all.skip(i as int)[0] == out@[i as int]@);
        if let Some(l) = as_arr(out[i]) {
            return Some(l);
        }
        assert(all.skip(i as int).drop_first() =~= all.skip(i as int + 1));
        i = i + 1;
    }
    None
}

/// Whether `needle` occurs at position `k`.
fn matches_at(hay: &[u8], needle: &[u8], k: usize) -> (r: bool)
    requires
        k <= hay.len(),
    ensures
        r == occurs_at(hay@, needle@, k as int),
{
    if needle.len() > hay.len() - k {
        return false;
    }
    let mut j: usize = 0;
    while j < needle.len()
        invariant
            j <= needle.len(),
            k + needle.len() <= hay.len(),
            forall|m: int| 0 <= m < j ==> hay@[k + m] == needle@[m],
        decreases needle.len() - j,
    {
        if hay[k + j] != needle[j] {
            assert(hay@.subrange(k as int, k + needle.len())[j as int] != needle@[j as int]);
            return false;
        }
        j = j + 1;
    }
    assert(hay@.subrange(k as int, k + needle.len()) =~= needle@);
    true
}

/// For each needle, whether it occurs in `hay`; one pass over `hay`.
pub fn contains_any(hay: &[u8], needles: &[&[u8]]) -> (r: Vec<bool>)
    ensures
        r.len() == needles.len(),
        forall|i: int| 0 <= i < r.len() ==> #[trigger] r@[i] == occurs(hay@, needles@[i]@),
{
    let mut r: Vec<bool> = Vec::new();
    let mut i: usize = 0;
    while i < needles.len()
        invariant
            i <= needles.len(),
            r.len() == i,
            forall|j: int| 0 <= j < i ==> !#[trigger] r@[j],
        decreases needles.len() - i,
    {
        r.push(false);
        i = i + 1;
    }
    let mut k: usize = 0;
    loop
        invariant_except_break
            k <= hay.len(),
            r.len() == needles.len(),
            forall|j: int|
                0 <= j < r.len() ==> (#[trigger] r@[j] <==> exists|m: int|
                    0 <= m < k && occurs_at(hay@, needles@[j]@, m)),
        ensures
            r.len() == needles.len(),
            forall|j: int|
                0 <= j < r.len() ==> (#[trigger] r@[j] <==> exists|m: int|
                    0 <= m <= hay.len() && occurs_at(hay@, needles@[j]@, m)),
        decreases hay.len() - k,
    {
        let ghost r0 = r@;
        let mut n: usize = 0;
        while n < needles.len()
            invariant
                n <= needles.len(),
                k <= hay.len(),
                r.len() == needles.len(),
                r0.len() == needles.len(),
                forall|j: int| n <= j < r.len() ==> #[trigger] r@[j] == r0[j],
                forall|j: int|
                    0 <= j < n ==> #[trigger] r@[j] == (r0[j] || occurs_at(
                        hay@,
                        needles@[j]@,
                        k as int,
                    )),
            decreases needles.len() - n,
        {
            if !r[n] && matches_at(hay, needles[n], k) {
                r.set(n, true);
            }
            n = n + 1;
        }
        assert forall|j: int| 0 <= j < r.len() implies (#[trigger] r@[j] <==> exists|m: int|
            0 <= m < k + 1 && occurs_at(hay@, needles@[j]@, m)) by {
            assert(r0[j] <==> exists|m: int| 0 <= m < k && occurs_at(hay@, needles@[j]@, m));
        }
        if k == hay.len() {
            break;
        }
        k = k + 1;
    }
    assert forall|j: int| 0 <= j < r.len() implies #[trigger] r@[j] == occurs(
        hay@,
        needles@[j]@,
    ) by {}
    r
}

/// Under a key stands the value of the first pair that has it, and nothing where no pair has it.
pub proof fn lemma_pair_get(d: Seq<(Tree, Tree)>, key: Seq<char>)
    ensures
        pair_get(d, key) is None ==> forall|i: int| 0 <= i < d.len() ==> (#[trigger] d[i]).0 != Tree::Text(
            key,
        ),
        forall|i: int|
            0 <= i < d.len() && (#[trigger] d[i]).0 == Tree::Text(key) && (forall|j: int|
                0 <= j < i ==> (#[trigger] d[j]).0 != Tree::Text(key)) ==> pair_get(d, key) == Some(
                d[i].1,
            ),
    decreases d.len(),
{
    if d.len() > 0 && d[0].0 != Tree::Text(key) {
        let t = d.drop_first();
        lemma_pair_get(t, key);
        assert forall|i: int| 0 < i < d.len() implies #[trigger] d[i] == t[i - 1] by {}
        assert forall|i: int| 0 <= i < d.len() && (#[trigger] d[i]).0 == Tree::Text(key) && (forall|
            j: int,
        |
            0 <= j < i ==> (#[trigger] d[j]).0 != Tree::Text(key)) implies pair_get(d, key) == Some(
            d[i].1,
        ) by {
            assert(t[i - 1] == d[i]);
            assert forall|j: int| 0 <= j < i - 1 implies (#[trigger] t[j]).0 != Tree::Text(key) by {
                assert(t[j] == d[j + 1]);
            }
        }
    }
}

/// A number under a key is the one that stands there, and 0 where there is none; a list likewise.
pub proof fn lemma_lookup(d: Seq<(Tree, Tree)>, key: Seq<char>, i: int)
    requires
        0 <= i < d.len(),
        d[i].0 == Tree::Text(key),
        forall|j: int| 0 <= j < i ==> (#[trigger] d[j]).0 != Tree::Text(key),
    ensures
        Tree::Dict(d).get(key) == Some(d[i].1),
        d[i].1 matches Tree::Int(n) ==> Tree::Dict(d).get_int(key) == Some(n) && Tree::Dict(
            d,
        ).int_or_zero(key) == n,
        !(d[i].1 is Int) ==> Tree::Dict(d).get_int(key) is None && Tree::Dict(d).int_or_zero(key) == 0,
        d[i].1 matches Tree::List(l) ==> Tree::Dict(d).get_list(key) == Some(l),
        !(d[i].1 is List) ==> Tree::Dict(d).get_list(key) is None,
{
    lemma_pair_get(d, key);
}

/// Nothing stands under a key that no pair has, nor under any key of what is no dictionary.
pub proof fn lemma_lookup_absent(t: Tree, key: Seq<char>)
    requires
        t matches Tree::Dict(d) ==> forall|i: int|
            0 <= i < d.len() ==> (#[trigger] d[i]).0 != Tree::Text(key),
    ensures
        t.get(key) is None,
        t.get_int(key) is None,
        t.get_list(key) is None,
        t.int_or_zero(key) == 0,
{
    if let Tree::Dict(d) = t {
        lemma_no_pair(d, key);
    }
}

proof fn lemma_no_pair(d: Seq<(Tree, Tree)>, key: Seq<char>)
    requires
        forall|i: int| 0 <= i < d.len() ==> (#[trigger] d[i]).0 != Tree::Text(key),
    ensures
        pair_get(d, key) is None,
    decreases d.len(),
{
    if d.len() > 0 {
        assert(d[0].0 != Tree::Text(key));
        assert forall|i: int| 0 <= i < d.drop_first().len() implies (#[trigger] d.drop_first()[i]).0
            != Tree::Text(key) by {
            assert(d.drop_first()[i] == d[i + 1]);
        }
        lemma_no_pair(d.drop_first(), key);
    }
}

/// Of several keys the first counts under which there is a number, or a list.
pub proof fn lemma_first_of_keys(t: Tree, keys: Seq<Seq<char>>)
    ensures
        t.first_int(keys) is None ==> forall|i: int|
            0 <= i < keys.len() ==> t.get_int(#[trigger] keys[i]) is None,
        forall|i: int|
            0 <= i < keys.len() && t.get_int(#[trigger] keys[i]) is Some && (forall|j: int|
                0 <= j < i ==> t.get_int(#[trigger] keys[j]) is None) ==> t.first_int(keys)
                == t.get_int(keys[i]),
        t.first_list(keys) is None ==> forall|i: int|
            0 <= i < keys.len() ==> t.get_list(#[trigger] keys[i]) is None,
        forall|i: int|
            0 <= i < keys.len() && t.get_list(#[trigger] keys[i]) is Some && (forall|j: int|
                0 <= j < i ==> t.get_list(#[trigger] keys[j]) is None) ==> t.first_list(keys)
                == t.get_list(keys[i]),
    decreases keys.len(),
{
    if keys.len() > 0 {
        let rest = keys.drop_first();
        lemma_first_of_keys(t, rest);
        assert forall|i: int| 0 < i < keys.len() implies #[trigger] keys[i] == rest[i - 1] by {}
        assert forall|i: int|
            0 <= i < keys.len() && t.get_int(#[trigger] keys[i]) is Some && (forall|j: int|
                0 <= j < i ==> t.get_int(#[trigger] keys[j]) is None) implies t.first_int(keys)
            == t.get_int(keys[i]) by {
            if i > 0 {
                assert(t.get_int(keys[0]) is None);
                assert(rest[i - 1] == keys[i]);
                assert forall|j: int| 0 <= j < i - 1 implies t.get_int(#[trigger] rest[j]) is None by {
                    assert(rest[j] == keys[j + 1]);
                }
            }
        }
        assert forall|i: int|
            0 <= i < keys.len() && t.get_list(#[trigger] keys[i]) is Some && (forall|j: int|
                0 <= j < i ==> t.get_list(#[trigger] keys[j]) is None) implies t.first_list(keys)
            == t.get_list(keys[i]) by {
            if i > 0 {
                assert(t.get_list(keys[0]) is None);
                assert(rest[i - 1] == keys[i]);
                assert forall|j: int| 0 <= j < i - 1 implies t.get_list(#[trigger] rest[j]) is None by {
                    assert(rest[j] == keys[j + 1]);
                }
            }
        }
    }
}

proof fn lemma_list_hits_prefix(a: Seq<Tree>, b: Seq<Tree>, key: Seq<char>, n: nat)
    requires
        n <= a.len(),
        n <= b.len(),
        forall|i: int| 0 <= i < n ==> a[i] == b[i],
    ensures
        list_hits(a, key, n) == list_hits(b, key, n),
    decreases n,
{
    if n > 0 {
        lemma_list_hits_prefix(a, b, key, (n - 1) as nat);
    }
}

proof fn lemma_dict_hits_prefix(a: Seq<(Tree, Tree)>, b: Seq<(Tree, Tree)>, key: Seq<char>, n: nat)
    requires
        n <= a.len(),
        n <= b.len(),
        forall|i: int| 0 <= i < n ==> a[i] == b[i],
    ensures
        dict_hits(a, key, n) == dict_hits(b, key, n),
    decreases n,
{
    if n > 0 {
        lemma_dict_hits_prefix(a, b, key, (n - 1) as nat);
    }
}

/// What is found under a key, in the order of the tree: in a list one element after the other; in a
/// dictionary one pair after the other, the value of a pair of that key before what is found inside it;
/// in anything else nothing.
pub proof fn lemma_hits(l: Seq<Tree>, d: Seq<(Tree, Tree)>, x: Tree, k: Seq<char>, key: Seq<char>)
    ensures
        hits(Tree::List(Seq::empty()), key).len() == 0,
        hits(Tree::List(l.push(x)), key) == hits(Tree::List(l), key) + hits(x, key),
        hits(Tree::Dict(Seq::empty()), key).len() == 0,
        k != key ==> hits(Tree::Dict(d.push((Tree::Text(k), x))), key) == hits(Tree::Dict(d), key)
            + hits(x, key),
        hits(Tree::Dict(d.push((Tree::Text(key), x))), key) == hits(Tree::Dict(d), key).push(x) + hits(
            x,
            key,
        ),
        x is Int || x is Text || x is Other ==> hits(x, key).len() == 0,
{
    assert(hits(Tree::List(Seq::empty()), key) == list_hits(Seq::empty(), key, 0));
    assert(hits(Tree::Dict(Seq::empty()), key) == dict_hits(Seq::empty(), key, 0));
    let m = l.push(x);
    assert(m.len() == l.len() + 1);
    lemma_list_hits_prefix(l, m, key, l.len());
    assert(list_hits(m, key, m.len()) == list_hits(m, key, l.len()) + hits(m[m.len() - 1], key));
    let e = d.push((Tree::Text(k), x));
    lemma_dict_hits_prefix(d, e, key, d.len());
    assert(e[e.len() - 1] == (Tree::Text(k), x));
    if k != key {
        assert(dict_hits(e, key, e.len()) == dict_hits(e, key, d.len()) + Seq::<Tree>::empty() + hits(
            x,
            key,
        ));
        assert(dict_hits(e, key, d.len()) + Seq::<Tree>::empty() =~= dict_hits(e, key, d.len()));
    }
    let f = d.push((Tree::Text(key), x));
    lemma_dict_hits_prefix(d, f, key, d.len());
    assert(f[f.len() - 1] == (Tree::Text(key), x));
    assert(dict_hits(f, key, f.len()) == dict_hits(f, key, d.len()) + seq![x] + hits(x, key));
    assert(dict_hits(f, key, d.len()) + seq![x] =~= dict_hits(f, key, d.len()).push(x));
}

/// The first hit is the first of all hits; there is none only where nothing is found.
pub proof fn lemma_first_hit(t: Tree, key: Seq<char>)
    ensures
        first_hit(t, key) matches Some(x) ==> hits(t, key).len() > 0 && hits(t, key).first() == x,
        hits(t, key).len() > 0 ==> first_hit(t, key) is Some,
{
}

/// Of what was found, the first number counts where a number is asked for, the first text where a text
/// is, and the first list where a list is.
pub proof fn lemma_first_of_found(s: Seq<Tree>)
    ensures
        first_int_of(s) is None ==> forall|i: int| 0 <= i < s.len() ==> !(#[trigger] s[i] is Int),
        forall|i: int|
            0 <= i < s.len() && #[trigger] s[i] is Int && (forall|j: int|
                0 <= j < i ==> !(#[trigger] s[j] is Int)) ==> (first_int_of(s) matches Some(n)
                && s[i] == Tree::Int(n)),
        first_text_of(s) is None ==> forall|i: int| 0 <= i < s.len() ==> !(#[trigger] s[i] is Text),
        forall|i: int|
            0 <= i < s.len() && #[trigger] s[i] is Text && (forall|j: int|
                0 <= j < i ==> !(#[trigger] s[j] is Text)) ==> (first_text_of(s) matches Some(n)
                && s[i] == Tree::Text(n)),
        first_list_of(s) is None ==> forall|i: int| 0 <= i < s.len() ==> !(#[trigger] s[i] is List),
        forall|i: int|
            0 <= i < s.len() && #[trigger] s[i] is List && (forall|j: int|
                0 <= j < i ==> !(#[trigger] s[j] is List)) ==> (first_list_of(s) matches Some(n)
                && s[i] == Tree::List(n)),
    decreases s.len(),
{
    if s.len() > 0 {
        let t = s.drop_first();
        lemma_first_of_found(t);
        assert forall|i: int| 0 < i < s.len() implies #[trigger] s[i] == t[i - 1] by {}
        assert forall|i: int| 0 <= i < s.len() && #[trigger] s[i] is Int && (forall|j: int|
            0 <= j < i ==> !(#[trigger] s[j] is Int)) implies (first_int_of(s) matches Some(n) && s[i]
            == Tree::Int(n)) by {
            if i > 0 {
                assert(!(s[0] is Int));
                assert(t[i - 1] == s[i]);
                assert forall|j: int| 0 <= j < i - 1 implies !(#[trigger] t[j] is Int) by {
                    assert(t[j] == s[j + 1]);
                }
            }
        }
        assert forall|i: int| 0 <= i < s.len() && #[trigger] s[i] is Text && (forall|j: int|
            0 <= j < i ==> !(#[trigger] s[j] is Text)) implies (first_text_of(s) matches Some(n)
            && s[i] == Tree::Text(n)) by {
            if i > 0 {
                assert(!(s[0] is Text));
                assert(t[i - 1] == s[i]);
                assert forall|j: int| 0 <= j < i - 1 implies !(#[trigger] t[j] is Text) by {
                    assert(t[j] == s[j + 1]);
                }
            }
        }
        assert forall|i: int| 0 <= i < s.len() && #[trigger] s[i] is List && (forall|j: int|
            0 <= j < i ==> !(#[trigger] s[j] is List)) implies (first_list_of(s) matches Some(n)
            && s[i] == Tree::List(n)) by {
            if i > 0 {
                assert(!(s[0] is List));
                assert(t[i - 1] == s[i]);
                assert forall|j: int| 0 <= j < i - 1 implies !(#[trigger] t[j] is List) by {
                    assert(t[j] == s[j + 1]);
                }
            }
        }
    }
}

/// Of three keys the first counts under which there is a list.
pub proof fn lemma_three_lists(b: Tree, x: Seq<char>, y: Seq<char>, z: Seq<char>)
    ensures
        b.first_list(seq![x, y, z]) == (if b.get_list(x) is Some {
            b.get_list(x)
        } else if b.get_list(y) is Some {
            b.get_list(y)
        } else {
            b.get_list(z)
        }),
{
    assert(seq![x, y, z].drop_first() =~= seq![y, z]);
    assert(seq![y, z].drop_first() =~= seq![z]);
    assert(seq![z].drop_first() =~= Seq::empty());
    assert(b.first_list(Seq::empty()) is None);
    assert(b.first_list(seq![z]) == b.get_list(z));
    assert(b.first_list(seq![y, z]) == if b.get_list(y) is Some {
        b.get_list(y)
    } else {
        b.get_list(z)
    });
}

} // verus!
