//! What the generated conversion makes of a flat mapping, field by field.
//!
//! Each kind of field is filled by one rule. The rules are stated here as
//! spec functions over the mathematical map, and each has an executable
//! function on `FlatMap` that is proved to follow it. A value that cannot be
//! read never raises an error: the field gets its default, and a list leaves
//! the item out.

use crate::flat_map::{distinct_keys, has_key, index_of_key, lemma_map_of_entry, map_of, FlatMap};
use crate::number::{decimal_i32, decimal_u8, parse_i32, parse_u8};
use crate::text::{
    chars_of, has_prefix, repeated_prefix_len, split_bounds, split_on, starts_with,
    strip_repeated, trim, trim_bounds,
};
use vstd::prelude::*;

verus! {

/// The texts that a sequence of strings holds.
pub open spec fn texts(v: Seq<String>) -> Seq<Seq<char>> {
    v.map_values(|s: String| s@)
}

/// The texts that a sequence of optional strings holds.
pub open spec fn optional_texts(v: Seq<Option<String>>) -> Seq<Option<Seq<char>>> {
    v.map_values(
        |o: Option<String>|
            match o {
                Some(s) => Some(s@),
                None => None,
            },
    )
}

/// The value under `k`, if the map has one.
pub open spec fn value_at(m: Map<Seq<char>, Seq<char>>, k: Seq<char>) -> Option<Seq<char>> {
    if m.contains_key(k) {
        Some(m[k])
    } else {
        None
    }
}

/// A text field: the value under `k`, or the empty text.
pub open spec fn text_at(m: Map<Seq<char>, Seq<char>>, k: Seq<char>) -> Seq<char> {
    match value_at(m, k) {
        Some(v) => v,
        None => Seq::empty(),
    }
}

/// A `u8` field: the number that the value under `k` denotes, or 0 where
/// there is no value or it denotes no `u8`.
pub open spec fn u8_at(m: Map<Seq<char>, Seq<char>>, k: Seq<char>) -> u8 {
    match value_at(m, k) {
        Some(v) => match decimal_u8(v) {
            Some(n) => n,
            None => 0,
        },
        None => 0,
    }
}

/// An `i32` field: the number that the value under `k` denotes, or 0 where
/// there is no value or it denotes no `i32`.
pub open spec fn i32_at(m: Map<Seq<char>, Seq<char>>, k: Seq<char>) -> i32 {
    match value_at(m, k) {
        Some(v) => match decimal_i32(v) {
            Some(n) => n,
            None => 0,
        },
        None => 0,
    }
}

/// The items of a list value: its pieces between commas, each without the
/// white space around it.
pub open spec fn items(value: Seq<char>) -> Seq<Seq<char>> {
    split_on(value, ',').map_values(|piece: Seq<char>| trim(piece))
}

/// The values of those items of `s` that are present, in order.
pub open spec fn keep_some<T>(s: Seq<Option<T>>) -> Seq<T>
    decreases s.len(),
{
    if s.len() == 0 {
        Seq::empty()
    } else {
        match s.last() {
            Some(v) => keep_some(s.drop_last()).push(v),
            None => keep_some(s.drop_last()),
        }
    }
}

/// An item of a list of optional texts: an empty item is absent.
pub open spec fn optional_item(item: Seq<char>) -> Option<Seq<char>> {
    if item.len() == 0 {
        None
    } else {
        Some(item)
    }
}

/// An item of a list of optional `u8`: an empty item is absent, and so is
/// one that denotes no `u8`.
pub open spec fn optional_u8_item(item: Seq<char>) -> Option<u8> {
    if item.len() == 0 {
        None
    } else {
        decimal_u8(item)
    }
}

/// An item of a list of optional `i32`: an empty item is absent, and so is
/// one that denotes no `i32`.
pub open spec fn optional_i32_item(item: Seq<char>) -> Option<i32> {
    if item.len() == 0 {
        None
    } else {
        decimal_i32(item)
    }
}

/// A list of `u8`: the items that denote one, in order; the others are left out.
pub open spec fn u8_items(value: Seq<char>) -> Seq<u8> {
    keep_some(items(value).map_values(|item: Seq<char>| decimal_u8(item)))
}

/// A list of `i32`: the items that denote one, in order; the others are left out.
pub open spec fn i32_items(value: Seq<char>) -> Seq<i32> {
    keep_some(items(value).map_values(|item: Seq<char>| decimal_i32(item)))
}

/// The prefix that the keys of a nested field carry: the field's name and a dot.
pub open spec fn nested_prefix(name: Seq<char>) -> Seq<char> {
    name.push('.')
}

/// `m` is a mapping of the nested field with the prefix `p` in `from`. Every
/// entry of `from` whose key begins with `p` is found in `m` under what is
/// left of its key once `p` is taken from its beginning as often as it stands
/// there, and `m` holds nothing else: each of its entries has the value of an
/// entry of `from` that leaves its key. Where two keys leave the same rest,
/// either of their values may stand under it.
pub open spec fn is_nested(
    m: Map<Seq<char>, Seq<char>>,
    from: Map<Seq<char>, Seq<char>>,
    p: Seq<char>,
) -> bool {
    &&& forall|key: Seq<char>|
        #![trigger from.contains_key(key)]
        from.contains_key(key) && has_prefix(key, p) ==> m.contains_key(strip_repeated(key, p))
    &&& forall|k: Seq<char>| #[trigger]
        m.contains_key(k) ==> exists|key: Seq<char>|
            #![trigger from.contains_key(key)]
            from.contains_key(key) && has_prefix(key, p) && strip_repeated(key, p) == k && m[k]
                == from[key]
}

/// The nested mapping that is built entry by entry, in order.
spec fn nested_map(e: Seq<(Seq<char>, Seq<char>)>, p: Seq<char>) -> Map<Seq<char>, Seq<char>>
    decreases e.len(),
{
    if e.len() == 0 {
        Map::empty()
    } else if has_prefix(e.last().0, p) {
        nested_map(e.drop_last(), p).insert(strip_repeated(e.last().0, p), e.last().1)
    } else {
        nested_map(e.drop_last(), p)
    }
}

/// Every entry whose key begins with `p` is found in the built mapping under
/// the rest of its key.
proof fn lemma_nested_holds_every_rest(e: Seq<(Seq<char>, Seq<char>)>, p: Seq<char>, i: int)
    requires
        0 <= i < e.len(),
        has_prefix(e[i].0, p),
    ensures
        nested_map(e, p).contains_key(strip_repeated(e[i].0, p)),
    decreases e.len(),
{
    if i < e.len() - 1 {
        assert(e.drop_last()[i] == e[i]);
        lemma_nested_holds_every_rest(e.drop_last(), p, i);
    }
}

/// Every entry of the built mapping comes from an entry whose key begins
/// with `p`: its key is the rest of that key, and its value is that value.
proof fn lemma_nested_comes_from_entry(
    e: Seq<(Seq<char>, Seq<char>)>,
    p: Seq<char>,
    k: Seq<char>,
) -> (i: int)
    requires
        nested_map(e, p).contains_key(k),
    ensures
        0 <= i < e.len(),
        has_prefix(e[i].0, p),
        strip_repeated(e[i].0, p) == k,
        nested_map(e, p)[k] == e[i].1,
    decreases e.len(),
{
    if has_prefix(e.last().0, p) && strip_repeated(e.last().0, p) == k {
        e.len() - 1
    } else {
        let i = lemma_nested_comes_from_entry(e.drop_last(), p, k);
        assert(e.drop_last()[i] == e[i]);
        i
    }
}

/// The built mapping is a mapping of the nested field.
proof fn lemma_nested_map_is_nested(e: Seq<(Seq<char>, Seq<char>)>, p: Seq<char>)
    requires
        distinct_keys(e),
    ensures
        is_nested(nested_map(e, p), map_of(e), p),
{
    let m = nested_map(e, p);
    let from = map_of(e);
    assert forall|key: Seq<char>|
        #![trigger from.contains_key(key)]
        from.contains_key(key) && has_prefix(key, p) implies m.contains_key(
        strip_repeated(key, p),
    ) by {
        assert(has_key(e, key));
        let i = index_of_key(e, key);
        lemma_nested_holds_every_rest(e, p, i);
    }
    assert forall|k: Seq<char>| #[trigger] m.contains_key(k) implies exists|key: Seq<char>|
        #![trigger from.contains_key(key)]
        from.contains_key(key) && has_prefix(key, p) && strip_repeated(key, p) == k && m[k]
            == from[key] by {
        let i = lemma_nested_comes_from_entry(e, p, k);
        lemma_map_of_entry(e, i);
        let key = e[i].0;
        assert(from.contains_key(key) && has_prefix(key, p) && strip_repeated(key, p) == k && m[k]
            == from[key]);
    }
}

/// One more item at the end adds its value, if it has one.
proof fn lemma_keep_some_step<T>(s: Seq<Option<T>>, i: int)
    requires
        0 <= i < s.len(),
    ensures
        keep_some(s.take(i + 1)) == match s[i] {
            Some(v) => keep_some(s.take(i)).push(v),
            None => keep_some(s.take(i)),
        },
{
    assert(s.take(i + 1).drop_last() =~= s.take(i));
}

/// The items of `value`, as strings.
fn items_of(value: &str) -> (out: Vec<String>)
    ensures
        texts(out@) == items(value@),
{
    let chars = chars_of(value);
    let bounds = split_bounds(&chars, ',');
    let mut out: Vec<String> = Vec::new();
    let n = bounds.len();
    let mut i: usize = 0;
    while i < n
        invariant
            i <= n,
            n == bounds@.len(),
            chars@ == value@,
            bounds@.len() == split_on(value@, ',').len(),
            forall|j: int|
                0 <= j < bounds@.len() ==> {
                    &&& (#[trigger] bounds@[j]).0 <= bounds@[j].1 <= value@.len()
                    &&& value@.subrange(bounds@[j].0 as int, bounds@[j].1 as int) == split_on(
                        value@,
                        ',',
                    )[j]
                },
            out@.len() == i,
            forall|j: int| 0 <= j < i ==> (#[trigger] out@[j])@ == trim(split_on(value@, ',')[j]),
        decreases n - i,
    {
        let (from, to) = bounds[i];
        let (a, b) = trim_bounds(&chars, from, to);
        assert(value@.subrange(from as int, to as int) == split_on(value@, ',')[i as int]);
        let piece = value.substring_char(a, b);
        out.push(piece.to_owned());
        i += 1;
    }
    assert(texts(out@) =~= items(value@));
    out
}

impl FlatMap {
    /// A text field: the value under `key`, or the empty text where there is none.
    pub fn text_or_default(&self, key: &str) -> (r: String)
        ensures
            r@ == text_at(self@, key@),
    {
        match self.get(key) {
            Some(v) => v.clone(),
            None => String::new(),
        }
    }

    /// An optional text field: the value under `key`, if there is one.
    pub fn optional_text(&self, key: &str) -> (r: Option<String>)
        ensures
            match r {
                Some(s) => value_at(self@, key@) == Some(s@),
                None => value_at(self@, key@) is None,
            },
    {
        match self.get(key) {
            Some(v) => Some(v.clone()),
            None => None,
        }
    }

    /// A `u8` field: the number that the value under `key` denotes, or 0.
    pub fn u8_or_default(&self, key: &str) -> (r: u8)
        ensures
            r == u8_at(self@, key@),
    {
        match self.get(key) {
            Some(v) => match parse_u8(v.as_str()) {
                Some(n) => n,
                None => 0,
            },
            None => 0,
        }
    }

    /// An `i32` field: the number that the value under `key` denotes, or 0.
    pub fn i32_or_default(&self, key: &str) -> (r: i32)
        ensures
            r == i32_at(self@, key@),
    {
        match self.get(key) {
            Some(v) => match parse_i32(v.as_str()) {
                Some(n) => n,
                None => 0,
            },
            None => 0,
        }
    }

    /// A list of texts: the items of the value under `key`; no item where
    /// there is no value.
    pub fn list_of_text(&self, key: &str) -> (r: Vec<String>)
        ensures
            texts(r@) == match value_at(self@, key@) {
                Some(v) => items(v),
                None => Seq::empty(),
            },
    {
        match self.get(key) {
            Some(v) => items_of(v.as_str()),
            None => {
                let r: Vec<String> = Vec::new();
                assert(texts(r@) =~= Seq::<Seq<char>>::empty());
                r
            },
        }
    }

    /// A list of `u8`: those items of the value under `key` that denote one.
    pub fn list_of_u8(&self, key: &str) -> (r: Vec<u8>)
        ensures
            r@ == match value_at(self@, key@) {
                Some(v) => u8_items(v),
                None => Seq::empty(),
            },
    {
        let mut r: Vec<u8> = Vec::new();
        if let Some(v) = self.get(key) {
            let pieces = items_of(v.as_str());
            let ghost read = items(v@).map_values(|item: Seq<char>| decimal_u8(item));
            assert(read.take(0) =~= Seq::<Option<u8>>::empty());
            let n = pieces.len();
            let mut i: usize = 0;
            while i < n
                invariant
                    i <= n,
                    n == pieces@.len(),
                    texts(pieces@) == items(v@),
                    read == items(v@).map_values(|item: Seq<char>| decimal_u8(item)),
                    r@ == keep_some(read.take(i as int)),
                decreases n - i,
            {
                assert(pieces@[i as int]@ == texts(pieces@)[i as int]);
                proof {
                    lemma_keep_some_step(read, i as int);
                }
                if let Some(x) = parse_u8(pieces[i].as_str()) {
                    r.push(x);
                }
                i += 1;
            }
            assert(read.take(n as int) =~= read);
        }
        r
    }

    /// A list of `i32`: those items of the value under `key` that denote one.
    pub fn list_of_i32(&self, key: &str) -> (r: Vec<i32>)
        ensures
            r@ == match value_at(self@, key@) {
                Some(v) => i32_items(v),
                None => Seq::empty(),
            },
    {
        let mut r: Vec<i32> = Vec::new();
        if let Some(v) = self.get(key) {
            let pieces = items_of(v.as_str());
            let ghost read = items(v@).map_values(|item: Seq<char>| decimal_i32(item));
            assert(read.take(0) =~= Seq::<Option<i32>>::empty());
            let n = pieces.len();
            let mut i: usize = 0;
            while i < n
                invariant
                    i <= n,
                    n == pieces@.len(),
                    texts(pieces@) == items(v@),
                    read == items(v@).map_values(|item: Seq<char>| decimal_i32(item)),
                    r@ == keep_some(read.take(i as int)),
                decreases n - i,
            {
                assert(pieces@[i as int]@ == texts(pieces@)[i as int]);
                proof {
                    lemma_keep_some_step(read, i as int);
                }
                if let Some(x) = parse_i32(pieces[i].as_str()) {
                    r.push(x);
                }
                i += 1;
            }
            assert(read.take(n as int) =~= read);
        }
        r
    }

    /// A list of optional texts: the items of the value under `key`, an
    /// empty item being absent.
    pub fn list_of_optional_text(&self, key: &str) -> (r: Vec<Option<String>>)
        ensures
            optional_texts(r@) == match value_at(self@, key@) {
                Some(v) => items(v).map_values(|item: Seq<char>| optional_item(item)),
                None => Seq::empty(),
            },
    {
        let mut r: Vec<Option<String>> = Vec::new();
        if let Some(v) = self.get(key) {
            let mut pieces = items_of(v.as_str());
            let ghost all = items(v@);
            let n = pieces.len();
            let mut i: usize = 0;
            while i < n
                invariant
                    i <= n,
                    n == pieces@.len(),
                    texts(pieces@) == all,
                    r@.len() == i,
                    forall|j: int|
                        0 <= j < i ==> optional_texts(r@)[j] == optional_item(#[trigger] all[j]),
                decreases n - i,
            {
                assert(pieces@[i as int]@ == texts(pieces@)[i as int]);
                let piece = pieces[i].clone();
                if piece.as_str().unicode_len() == 0 {
                    r.push(None);
                } else {
                    r.push(Some(piece));
                }
                i += 1;
            }
            assert(optional_texts(r@) =~= all.map_values(|item: Seq<char>| optional_item(item)));
        } else {
            assert(optional_texts(r@) =~= Seq::<Option<Seq<char>>>::empty());
        }
        r
    }

    /// A list of optional `u8`: for each item of the value under `key` the
    /// number that it denotes, an empty or unreadable item being absent.
    pub fn list_of_optional_u8(&self, key: &str) -> (r: Vec<Option<u8>>)
        ensures
            r@ == match value_at(self@, key@) {
                Some(v) => items(v).map_values(|item: Seq<char>| optional_u8_item(item)),
                None => Seq::empty(),
            },
    {
        let mut r: Vec<Option<u8>> = Vec::new();
        if let Some(v) = self.get(key) {
            let pieces = items_of(v.as_str());
            let ghost all = items(v@);
            let n = pieces.len();
            let mut i: usize = 0;
            while i < n
                invariant
                    i <= n,
                    n == pieces@.len(),
                    texts(pieces@) == all,
                    r@.len() == i,
                    forall|j: int| 0 <= j < i ==> r@[j] == optional_u8_item(#[trigger] all[j]),
                decreases n - i,
            {
                assert(pieces@[i as int]@ == texts(pieces@)[i as int]);
                let piece = pieces[i].as_str();
                if piece.unicode_len() == 0 {
                    r.push(None);
                } else {
                    r.push(parse_u8(piece));
                }
                i += 1;
            }
            assert(r@ =~= all.map_values(|item: Seq<char>| optional_u8_item(item)));
        }
        r
    }

    /// A list of optional `i32`: for each item of the value under `key` the
    /// number that it denotes, an empty or unreadable item being absent.
    pub fn list_of_optional_i32(&self, key: &str) -> (r: Vec<Option<i32>>)
        ensures
            r@ == match value_at(self@, key@) {
                Some(v) => items(v).map_values(|item: Seq<char>| optional_i32_item(item)),
                None => Seq::empty(),
            },
    {
        let mut r: Vec<Option<i32>> = Vec::new();
        if let Some(v) = self.get(key) {
            let pieces = items_of(v.as_str());
            let ghost all = items(v@);
            let n = pieces.len();
            let mut i: usize = 0;
            while i < n
                invariant
                    i <= n,
                    n == pieces@.len(),
                    texts(pieces@) == all,
                    r@.len() == i,
                    forall|j: int| 0 <= j < i ==> r@[j] == optional_i32_item(#[trigger] all[j]),
                decreases n - i,
            {
                assert(pieces@[i as int]@ == texts(pieces@)[i as int]);
                let piece = pieces[i].as_str();
                if piece.unicode_len() == 0 {
                    r.push(None);
                } else {
                    r.push(parse_i32(piece));
                }
                i += 1;
            }
            assert(r@ =~= all.map_values(|item: Seq<char>| optional_i32_item(item)));
        }
        r
    }

    /// A nested field: the mapping of the entries whose keys begin with
    /// `name` and a dot, each under the rest of its key.
    pub fn nested(&self, name: &str) -> (r: FlatMap)
        ensures
            is_nested(r@, self@, nested_prefix(name@)),
    {
        let mut prefix = chars_of(name);
        prefix.push('.');
        let mut r = FlatMap::new();
        let n = self.len();
        let mut i: usize = 0;
        assert(self.pairs().take(0) =~= Seq::<(Seq<char>, Seq<char>)>::empty());
        while i < n
            invariant
                i <= n,
                n == self.pairs().len(),
                prefix@ == nested_prefix(name@),
                r@ == nested_map(self.pairs().take(i as int), prefix@),
            decreases n - i,
        {
            let (key, value) = self.entry(i);
            let chars = chars_of(key.as_str());
            assert(self.pairs().take(i + 1).drop_last() =~= self.pairs().take(i as int));
            if starts_with(&chars, &prefix) {
                let skip = repeated_prefix_len(&chars, &prefix);
                let rest = key.as_str().substring_char(skip, chars.len());
                assert(rest@ =~= chars@.skip(skip as int));
                r.insert(rest.to_owned(), value.clone());
            }
            i += 1;
        }
        assert(self.pairs().take(n as int) =~= self.pairs());
        proof {
            lemma_nested_map_is_nested(self.pairs(), prefix@);
        }
        r
    }
}

} // verus!
