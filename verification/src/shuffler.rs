//! The shuffler: from a property tree to the payload variants that cover
//! every non-empty subset of the properties at each level.

use vstd::prelude::*;
use vstd::arithmetic::power2::{pow2, lemma_pow2_unfold, lemma_pow2_pos};
use vstd::arithmetic::div_mod::lemma_div_denominator;
use vstd::bits::{lemma_u64_pow2_no_overflow, lemma_u64_shl_is_mul};
use crate::json::{
    entry_text, entry_texts, json_clone, json_object, json_text, json_to_string, object_text,
};
use crate::digger::{Node, Tree, lemma_trees};
use crate::text::same_text;

verus! {

/// The entries of a payload as the proofs see them: property names with the
/// texts of their JSON values, in insertion order.
pub type Entries = Seq<(Seq<char>, Seq<char>)>;

/// `i` is the first position of `entries` that holds the key `name`.
pub open spec fn first_at(entries: Entries, name: Seq<char>, i: int) -> bool {
    &&& 0 <= i < entries.len()
    &&& entries[i].0 == name
    &&& forall|j: int| 0 <= j < i ==> (#[trigger] entries[j]).0 != name
}

/// Some entry has the key `name`.
pub open spec fn has_key(entries: Entries, name: Seq<char>) -> bool {
    exists|i: int| first_at(entries, name, i)
}

/// The first position that holds the key `name`, where there is one.
pub open spec fn key_index(entries: Entries, name: Seq<char>) -> int {
    choose|i: int| first_at(entries, name, i)
}

/// Map insertion on entries: the value under `name` is replaced where the key
/// is present, and the pair is appended where it is not.
pub open spec fn put(entries: Entries, name: Seq<char>, value: Seq<char>) -> Entries {
    if has_key(entries, name) {
        entries.update(key_index(entries, name), (name, value))
    } else {
        entries.push((name, value))
    }
}

/// One payload: a mapping from property names to JSON values that keeps the
/// order in which the names were first inserted.
#[derive(Debug)]
pub struct Variant {
    entries: Vec<(String, serde_json::Value)>,
}

impl View for Variant {
    type V = Entries;

    closed spec fn view(&self) -> Entries {
        entry_texts(self.entries@)
    }
}

impl Variant {
    /// The empty payload.
    pub fn new() -> (r: Variant)
        ensures
            r@ == Seq::<(Seq<char>, Seq<char>)>::empty(),
    {
        let r = Variant { entries: Vec::new() };
        assert(r@ =~= Seq::<(Seq<char>, Seq<char>)>::empty());
        r
    }

    /// The number of properties in the payload.
    pub fn len(&self) -> (n: usize)
        ensures
            n == self@.len(),
    {
        self.entries.len()
    }

    /// The payload has no property.
    pub fn is_empty(&self) -> (r: bool)
        ensures
            r == (self@.len() == 0),
    {
        self.entries.len() == 0
    }

    /// The first position that holds `key`, or the length where none does.
    fn position(&self, key: &str) -> (i: usize)
        ensures
            i <= self@.len(),
            i < self@.len() ==> first_at(self@, key@, i as int),
            i == self@.len() ==> !has_key(self@, key@),
            i < self@.len() ==> has_key(self@, key@) && key_index(self@, key@) == i,
    {
        let mut i: usize = 0;
        while i < self.entries.len()
            invariant
                i <= self.entries.len(),
                forall|j: int| 0 <= j < i ==> (#[trigger] self@[j]).0 != key@,
            decreases self.entries.len() - i,
        {
            if same_text(self.entries[i].0.as_str(), key) {
                assert(first_at(self@, key@, i as int));
                return i;
            }
            i += 1;
        }
        i
    }

    /// Whether the payload has the property `key`.
    pub fn contains_key(&self, key: &str) -> (r: bool)
        ensures
            r == has_key(self@, key@),
    {
        self.position(key) < self.entries.len()
    }

    /// The value of the property `key`, where the payload has it.
    pub fn get(&self, key: &str) -> (r: Option<&serde_json::Value>)
        ensures
            r is Some == has_key(self@, key@),
            r matches Some(v) ==> json_text(*v) == self@[key_index(self@, key@)].1,
    {
        let i = self.position(key);
        if i < self.entries.len() {
            Some(&self.entries[i].1)
        } else {
            None
        }
    }

    /// Sets the property `name` to `value`: an existing property keeps its
    /// place, a new one goes to the end.
    pub fn insert(&mut self, name: String, value: serde_json::Value)
        ensures
            final(self)@ == put(old(self)@, name@, json_text(value)),
    {
        let i = self.position(name.as_str());
        if i < self.entries.len() {
            self.entries.set(i, (name, value));
            assert(self@ =~= old(self)@.update(i as int, (name@, json_text(value))));
        } else {
            self.entries.push((name, value));
            assert(self@ =~= old(self)@.push((name@, json_text(value))));
        }
    }

    /// A copy of the payload with the same entries.
    pub fn duplicate(&self) -> (r: Variant)
        ensures
            r@ == self@,
    {
        let mut entries: Vec<(String, serde_json::Value)> = Vec::new();
        let mut i: usize = 0;
        while i < self.entries.len()
            invariant
                i <= self.entries.len(),
                entries@.len() == i,
                forall|j: int|
                    0 <= j < i ==> entry_text(#[trigger] entries@[j]) == entry_text(
                        self.entries@[j],
                    ),
            decreases self.entries.len() - i,
        {
            let name = self.entries[i].0.clone();
            let value = json_clone(&self.entries[i].1);
            entries.push((name, value));
            i += 1;
        }
        assert(entry_texts(entries@) =~= entry_texts(self.entries@));
        Variant { entries }
    }

    /// The payload as one JSON object.
    pub fn to_value(&self) -> (r: serde_json::Value)
        ensures
            json_text(r) == object_text(self@),
            self@.len() == 0 ==> json_text(r) == "{}"@,
    {
        json_object(&self.entries)
    }

    /// The payload serialised as the text of one JSON object.
    pub fn to_json(&self) -> (r: String)
        ensures
            r@ == object_text(self@),
            self@.len() == 0 ==> r@ == "{}"@,
    {
        let v = json_object(&self.entries);
        json_to_string(&v)
    }
}

/// The payloads of a list of variants, in order.
pub open spec fn variant_views(variants: Seq<Variant>) -> Seq<Entries> {
    variants.map_values(|v: Variant| v@)
}

/// The sub-object variants that were set aside, as the proofs see them: the
/// name of each object-valued child with the payloads of its own shuffle.
pub open spec fn stash_views(subs: Seq<(String, Vec<Variant>)>) -> Seq<(Seq<char>, Seq<Entries>)> {
    subs.map_values(|s: (String, Vec<Variant>)| (s.0@, variant_views(s.1@)))
}

/// The name and value of each child of a node, in declared order.
pub open spec fn properties(t: Tree) -> Entries {
    t.children.map_values(|c: Tree| (c.name, c.value))
}

/// Bit `i` of `mask`, counted from the least significant one.
pub open spec fn selected(mask: nat, i: int) -> bool {
    (mask / pow2(i as nat)) % 2 == 1
}

/// The payload that `mask` selects among the first `upto` properties:
/// property `i` is in it where bit `i` of the mask is set.
pub open spec fn select(props: Entries, mask: nat, upto: nat) -> Entries
    decreases upto,
{
    if upto == 0 || upto > props.len() {
        Seq::empty()
    } else {
        let rest = select(props, mask, (upto - 1) as nat);
        if selected(mask, upto - 1) {
            put(rest, props[upto - 1].0, props[upto - 1].1)
        } else {
            rest
        }
    }
}

/// The flat combinations of a list of properties: one payload for each mask
/// from 1 to `2^n - 1`, in ascending order of the mask.
pub open spec fn flat(props: Entries) -> Seq<Entries> {
    Seq::new(
        (pow2(props.len()) - 1) as nat,
        |k: int| select(props, (k + 1) as nat, props.len()),
    )
}

/// `base` with the entry `name` set to each of the sub-object payloads `subs`
/// in turn, each serialised as one JSON object.
pub open spec fn grafts(base: Entries, name: Seq<char>, subs: Seq<Entries>) -> Seq<Entries> {
    Seq::new(subs.len(), |j: int| put(base, name, object_text(subs[j])))
}

/// The grafts of `base` for the first `upto` stashed children, child by child.
pub open spec fn expand(base: Entries, stash: Seq<(Seq<char>, Seq<Entries>)>, upto: nat) -> Seq<
    Entries,
>
    decreases upto,
{
    if upto == 0 || upto > stash.len() {
        Seq::empty()
    } else {
        expand(base, stash, (upto - 1) as nat) + grafts(
            base,
            stash[upto - 1].0,
            stash[upto - 1].1,
        )
    }
}

/// The expansions of the first `upto` flat combinations, combination by
/// combination.
pub open spec fn expansions(
    combs: Seq<Entries>,
    stash: Seq<(Seq<char>, Seq<Entries>)>,
    upto: nat,
) -> Seq<Entries>
    decreases upto,
{
    if upto == 0 || upto > combs.len() {
        Seq::empty()
    } else {
        expansions(combs, stash, (upto - 1) as nat) + expand(combs[upto - 1], stash, stash.len())
    }
}

/// What is set aside among the first `upto` children: for each child that has
/// children of its own, its name and its shuffle.
pub open spec fn stash(children: Seq<Tree>, upto: nat) -> Seq<(Seq<char>, Seq<Entries>)>
    decreases children, upto,
{
    if upto == 0 || upto > children.len() {
        Seq::empty()
    } else {
        let rest = stash(children, (upto - 1) as nat);
        let c = children[upto - 1];
        if c.children.len() > 0 {
            rest.push((c.name, shuffle(c)))
        } else {
            rest
        }
    }
}

/// The payload variants of a node: its flat combinations in mask order,
/// followed by their sub-object expansions.
pub open spec fn shuffle(t: Tree) -> Seq<Entries>
    decreases t, 0nat,
{
    let combs = flat(properties(t));
    combs + expansions(combs, stash(t.children, t.children.len()), combs.len())
}

/// Every node of the tree has fewer than 64 children, so that each mask fits
/// in 64 bits.
pub open spec fn enumerable(t: Tree) -> bool
    decreases t,
{
    &&& t.children.len() < 64
    &&& forall|i: int| 0 <= i < t.children.len() ==> enumerable(#[trigger] t.children[i])
}

/// Whether every node under `point` has fewer than 64 children.
pub fn is_enumerable(point: &Node) -> (r: bool)
    ensures
        r == enumerable(point@),
    decreases point,
{
    proof {
        lemma_trees(point.children@, point.children@.len());
    }
    if point.children.len() >= 64 {
        return false;
    }
    let mut i: usize = 0;
    while i < point.children.len()
        invariant
            i <= point.children.len(),
            point@.children.len() == point.children@.len(),
            point@.children.len() < 64,
            forall|j: int|
                0 <= j < point.children@.len() ==> #[trigger] point@.children[j]
                    == point.children@[j]@,
            forall|j: int| 0 <= j < i ==> enumerable(#[trigger] point@.children[j]),
        decreases point.children.len() - i,
    {
        if !is_enumerable(&point.children[i]) {
            assert(!enumerable(point@.children[i as int]));
            return false;
        }
        i += 1;
    }
    true
}

/// The payload that `mask` selects among the children of `point`.
fn pick(point: &Node, mask: u64) -> (c: Variant)
    ensures
        c@ == select(properties(point@), mask as nat, point.children@.len()),
{
    let ghost props = properties(point@);
    proof {
        lemma_trees(point.children@, point.children@.len());
        assert(pow2(0) == 1) by {
            lemma_pow2_unfold(1);
            vstd::arithmetic::power2::lemma2_to64();
        }
    }
    let mut c = Variant::new();
    let mut rest: u64 = mask;
    let mut i: usize = 0;
    while i < point.children.len()
        invariant
            i <= point.children.len(),
            props == properties(point@),
            props.len() == point.children@.len(),
            forall|j: int|
                0 <= j < props.len() ==> #[trigger] props[j] == (
                    point.children@[j].name@,
                    json_text(point.children@[j].value),
                ),
            rest == (mask as nat) / pow2(i as nat),
            c@ == select(props, mask as nat, i as nat),
        decreases point.children.len() - i,
    {
        proof {
            lemma_pow2_unfold((i + 1) as nat);
            lemma_pow2_pos(i as nat);
            lemma_div_denominator(mask as int, pow2(i as nat) as int, 2);
        }
        if rest % 2 == 1 {
            let name = point.children[i].name.clone();
            let value = json_clone(&point.children[i].value);
            c.insert(name, value);
        }
        rest = rest / 2;
        i += 1;
    }
    c
}

/// Appends to `out` a copy of `base` for each payload of `subs`, with the
/// entry `name` set to that payload as a JSON object.
fn graft(base: &Variant, name: &String, subs: &Vec<Variant>, out: &mut Vec<Variant>)
    ensures
        variant_views(final(out)@) == variant_views(old(out)@) + grafts(
            base@,
            name@,
            variant_views(subs@),
        ),
{
    let mut j: usize = 0;
    while j < subs.len()
        invariant
            j <= subs.len(),
            variant_views(out@) == variant_views(old(out)@) + grafts(
                base@,
                name@,
                variant_views(subs@),
            ).take(j as int),
        decreases subs.len() - j,
    {
        let value = subs[j].to_value();
        let mut h = base.duplicate();
        h.insert(name.clone(), value);
        let ghost before = out@;
        out.push(h);
        assert(variant_views(out@) =~= variant_views(before).push(h@));
        assert(variant_views(out@) =~= variant_views(old(out)@) + grafts(
            base@,
            name@,
            variant_views(subs@),
        ).take(j + 1));
        j += 1;
    }
    assert(grafts(base@, name@, variant_views(subs@)).take(j as int) =~= grafts(
        base@,
        name@,
        variant_views(subs@),
    ));
}

/// Appends to `out` the grafts of `base` for every stashed child, in stash
/// order.
fn expand_one(base: &Variant, subs: &Vec<(String, Vec<Variant>)>, out: &mut Vec<Variant>)
    ensures
        variant_views(final(out)@) == variant_views(old(out)@) + expand(
            base@,
            stash_views(subs@),
            subs@.len(),
        ),
{
    let mut k: usize = 0;
    while k < subs.len()
        invariant
            k <= subs.len(),
            variant_views(out@) == variant_views(old(out)@) + expand(
                base@,
                stash_views(subs@),
                k as nat,
            ),
        decreases subs.len() - k,
    {
        graft(base, &subs[k].0, &subs[k].1, out);
        assert(variant_views(out@) =~= variant_views(old(out)@) + expand(
            base@,
            stash_views(subs@),
            (k + 1) as nat,
        ));
        k += 1;
    }
}

/// All payload variants of the property tree under `point`: the non-empty
/// subsets of its children in mask order, then, for each of them and for each
/// object-valued child, one variant per payload of that child's own shuffle.
pub fn do_it(point: &Node) -> (combs: Vec<Variant>)
    requires
        enumerable(point@),
    ensures
        variant_views(combs@) == shuffle(point@),
    decreases point,
{
    let n = point.children.len();
    let ghost props = properties(point@);
    proof {
        lemma_trees(point.children@, point.children@.len());
    }
    let mut subs: Vec<(String, Vec<Variant>)> = Vec::new();
    let mut i: usize = 0;
    while i < n
        invariant
            i <= n,
            n == point.children.len(),
            enumerable(point@),
            point@.children.len() == n,
            forall|j: int| 0 <= j < n ==> #[trigger] point@.children[j] == point.children@[j]@,
            stash_views(subs@) == stash(point@.children, i as nat),
        decreases n - i,
    {
        proof {
            lemma_trees(point.children@[i as int].children@, point.children@[i as int].children@.len());
            assert(enumerable(point@.children[i as int]));
        }
        if point.children[i].children.len() > 0 {
            let m = do_it(&point.children[i]);
            let ghost before = subs@;
            subs.push((point.children[i].name.clone(), m));
            assert(stash_views(subs@) =~= stash_views(before).push(
                (point.children@[i as int].name@, variant_views(m@)),
            ));
        }
        i += 1;
    }
    proof {
        lemma_u64_pow2_no_overflow(n as nat);
        lemma_u64_shl_is_mul(1, n as u64);
        lemma_pow2_pos(n as nat);
    }
    let total: u64 = (1u64 << (n as u64)) - 1;
    let mut combs: Vec<Variant> = Vec::new();
    let mut mask: u64 = 1;
    while mask <= total
        invariant
            1 <= mask <= total + 1,
            total == pow2(n as nat) - 1,
            total < u64::MAX,
            n == point.children@.len(),
            props == properties(point@),
            props.len() == n,
            combs@.len() == mask - 1,
            forall|k: int|
                0 <= k < combs@.len() ==> (#[trigger] combs@[k])@ == select(
                    props,
                    (k + 1) as nat,
                    n as nat,
                ),
        decreases total + 1 - mask,
    {
        let c = pick(point, mask);
        combs.push(c);
        mask += 1;
    }
    assert(variant_views(combs@) =~= flat(props));
    let flat_len = combs.len();
    let mut extra: Vec<Variant> = Vec::new();
    let mut ci: usize = 0;
    while ci < flat_len
        invariant
            ci <= flat_len,
            flat_len == combs@.len(),
            variant_views(combs@) == flat(props),
            variant_views(extra@) == expansions(flat(props), stash_views(subs@), ci as nat),
        decreases flat_len - ci,
    {
        expand_one(&combs[ci], &subs, &mut extra);
        assert(variant_views(combs@)[ci as int] == combs@[ci as int]@);
        ci += 1;
    }
    let ghost flat_views = variant_views(combs@);
    let ghost extra_views = variant_views(extra@);
    combs.append(&mut extra);
    assert(variant_views(combs@) =~= flat_views + extra_views);
    combs
}

/// The names that occur as keys of a payload.
pub open spec fn keys(entries: Entries) -> Set<Seq<char>> {
    Set::new(
        |name: Seq<char>|
            exists|i: int| 0 <= i < entries.len() && (#[trigger] entries[i]).0 == name,
    )
}

/// A key that occurs at some position has a first position.
pub proof fn lemma_first_position(entries: Entries, name: Seq<char>, i: int)
    requires
        0 <= i < entries.len(),
        entries[i].0 == name,
    ensures
        has_key(entries, name),
    decreases i,
{
    if exists|j: int| 0 <= j < i && (#[trigger] entries[j]).0 == name {
        let j = choose|j: int| 0 <= j < i && (#[trigger] entries[j]).0 == name;
        lemma_first_position(entries, name, j);
    } else {
        assert(first_at(entries, name, i));
    }
}

/// A payload has a key exactly where the key is among its keys.
pub proof fn lemma_has_key(entries: Entries, name: Seq<char>)
    ensures
        has_key(entries, name) == keys(entries).contains(name),
{
    if keys(entries).contains(name) {
        let i = choose|i: int| 0 <= i < entries.len() && (#[trigger] entries[i]).0 == name;
        lemma_first_position(entries, name, i);
    }
    if has_key(entries, name) {
        let i = key_index(entries, name);
        assert(first_at(entries, name, i));
        assert(entries[i].0 == name);
    }
}

/// Insertion adds the key to the keys of a payload and changes no other.
pub proof fn lemma_put_keys(entries: Entries, name: Seq<char>, value: Seq<char>)
    ensures
        keys(put(entries, name, value)) == keys(entries).insert(name),
        put(entries, name, value).len() >= entries.len(),
{
    let after = put(entries, name, value);
    if has_key(entries, name) {
        let at = key_index(entries, name);
        assert(first_at(entries, name, at));
        assert forall|k: Seq<char>| keys(after).contains(k) <==> keys(entries).insert(name).contains(
            k,
        ) by {
            if keys(after).contains(k) {
                let i = choose|i: int| 0 <= i < after.len() && (#[trigger] after[i]).0 == k;
                if i != at {
                    assert(entries[i].0 == k);
                }
            }
            if keys(entries).contains(k) {
                let i = choose|i: int| 0 <= i < entries.len() && (#[trigger] entries[i]).0 == k;
                assert(after[i].0 == k);
            }
            if k == name {
                assert(after[at].0 == k);
            }
        }
    } else {
        assert forall|k: Seq<char>| keys(after).contains(k) <==> keys(entries).insert(name).contains(
            k,
        ) by {
            if keys(after).contains(k) {
                let i = choose|i: int| 0 <= i < after.len() && (#[trigger] after[i]).0 == k;
                if i < entries.len() {
                    assert(entries[i].0 == k);
                }
            }
            if keys(entries).contains(k) {
                let i = choose|i: int| 0 <= i < entries.len() && (#[trigger] entries[i]).0 == k;
                assert(after[i].0 == k);
            }
            if k == name {
                assert(after[entries.len() as int].0 == k);
            }
        }
    }
    assert(keys(after) =~= keys(entries).insert(name));
}

/// The keys of the payload that a mask selects are the names of the
/// properties whose bit is set.
pub proof fn lemma_select_keys(props: Entries, mask: nat, upto: nat)
    requires
        upto <= props.len(),
    ensures
        forall|name: Seq<char>|
            keys(select(props, mask, upto)).contains(name) <==> exists|i: int|
                0 <= i < upto && selected(mask, i) && (#[trigger] props[i]).0 == name,
    decreases upto,
{
    if upto == 0 {
        assert forall|name: Seq<char>| !keys(select(props, mask, upto)).contains(name) by {}
    } else {
        let last = (upto - 1) as nat;
        let rest = select(props, mask, last);
        lemma_select_keys(props, mask, last);
        if selected(mask, last as int) {
            lemma_put_keys(rest, props[last as int].0, props[last as int].1);
        }
        assert forall|name: Seq<char>|
            keys(select(props, mask, upto)).contains(name) <==> exists|i: int|
                0 <= i < upto && selected(mask, i) && (#[trigger] props[i]).0
                    == name by {
            if keys(select(props, mask, upto)).contains(name) {
                if keys(rest).contains(name) {
                    let i = choose|i: int|
                        0 <= i < last && selected(mask, i) && (#[trigger] props[i]).0
                            == name;
                    assert(0 <= i < upto && selected(mask, i) && props[i].0 == name);
                } else {
                    assert(selected(mask, last as int) && props[last as int].0 == name);
                }
            }
            if exists|i: int|
                0 <= i < upto && selected(mask, i) && (#[trigger] props[i]).0 == name {
                let i = choose|i: int|
                    0 <= i < upto && selected(mask, i) && (#[trigger] props[i]).0 == name;
                if i < last {
                    assert(keys(rest).contains(name));
                }
            }
        }
    }
}

/// Two different masks below `2^n` differ in one of their first `n` bits.
pub proof fn lemma_masks_differ(a: nat, b: nat, n: nat)
    requires
        a < pow2(n),
        b < pow2(n),
        a != b,
    ensures
        exists|i: int| 0 <= i < n && selected(a, i) != selected(b, i),
    decreases n,
{
    vstd::arithmetic::power2::lemma2_to64();
    if n == 0 {
    } else if a % 2 != b % 2 {
        assert(pow2(0) == 1);
        assert(a / 1 == a && b / 1 == b);
        assert(selected(a, 0) == (a % 2 == 1));
        assert(selected(b, 0) == (b % 2 == 1));
        assert(selected(a, 0) != selected(b, 0));
    } else {
        lemma_pow2_unfold(n);
        let ha = a / 2;
        let hb = b / 2;
        let m = (n - 1) as nat;
        lemma_masks_differ(ha, hb, m);
        let i = choose|i: int| 0 <= i < m && selected(ha, i) != selected(hb, i);
        lemma_pow2_unfold((i + 1) as nat);
        lemma_pow2_pos(i as nat);
        lemma_div_denominator(a as int, 2, pow2(i as nat) as int);
        lemma_div_denominator(b as int, 2, pow2(i as nat) as int);
        assert(selected(a, i + 1) == selected(ha, i));
        assert(selected(b, i + 1) == selected(hb, i));
        assert(0 <= i + 1 < n && selected(a, i + 1) != selected(b, i + 1));
    }
}

/// How many sub-object payloads the first `upto` stashed children hold.
pub open spec fn stash_total(stash: Seq<(Seq<char>, Seq<Entries>)>, upto: nat) -> nat
    decreases upto,
{
    if upto == 0 || upto > stash.len() {
        0
    } else {
        stash_total(stash, (upto - 1) as nat) + stash[upto - 1].1.len()
    }
}

/// One combination is expanded into one variant for each stashed payload.
pub proof fn lemma_expand_count(base: Entries, stash: Seq<(Seq<char>, Seq<Entries>)>, upto: nat)
    requires
        upto <= stash.len(),
    ensures
        expand(base, stash, upto).len() == stash_total(stash, upto),
    decreases upto,
{
    if upto > 0 {
        lemma_expand_count(base, stash, (upto - 1) as nat);
    }
}

/// The first `upto` combinations are expanded into `upto` times as many
/// variants as there are stashed payloads.
pub proof fn lemma_expansions_count(
    combs: Seq<Entries>,
    stash: Seq<(Seq<char>, Seq<Entries>)>,
    upto: nat,
)
    requires
        upto <= combs.len(),
    ensures
        expansions(combs, stash, upto).len() == upto * stash_total(stash, stash.len()),
    decreases upto,
{
    let each = stash_total(stash, stash.len());
    if upto > 0 {
        lemma_expansions_count(combs, stash, (upto - 1) as nat);
        lemma_expand_count(combs[upto - 1], stash, stash.len());
        assert((upto - 1) * each + each == upto * each) by (nonlinear_arith);
    } else {
        assert(0 * each == 0) by (nonlinear_arith);
    }
}

/// The number of variants of a node with `n` children: each of the `2^n - 1`
/// flat combinations counts once for itself and once for every payload of
/// every object-valued child.
pub proof fn lemma_shuffle_count(t: Tree)
    ensures
        shuffle(t).len() == (pow2(t.children.len()) - 1) * (1 + stash_total(
            stash(t.children, t.children.len()),
            stash(t.children, t.children.len()).len(),
        )),
{
    let combs = flat(properties(t));
    let stashed = stash(t.children, t.children.len());
    let each = stash_total(stashed, stashed.len());
    lemma_pow2_pos(t.children.len());
    lemma_expansions_count(combs, stashed, combs.len());
    assert(combs.len() + combs.len() * each == combs.len() * (1 + each)) by (nonlinear_arith);
}

/// Every child of the node is a leaf.
pub open spec fn all_leaves(t: Tree) -> bool {
    forall|i: int| 0 <= i < t.children.len() ==> (#[trigger] t.children[i]).children.len() == 0
}

/// No two children of the node have the same name.
pub open spec fn distinct_names(t: Tree) -> bool {
    forall|i: int, j: int|
        0 <= i < j < t.children.len() ==> (#[trigger] t.children[i]).name != (
        #[trigger] t.children[j]).name
}

/// Nothing is set aside where every child is a leaf.
pub proof fn lemma_leaves_stash(children: Seq<Tree>, upto: nat)
    requires
        upto <= children.len(),
        forall|i: int| 0 <= i < children.len() ==> (#[trigger] children[i]).children.len() == 0,
    ensures
        stash(children, upto).len() == 0,
    decreases upto,
{
    if upto > 0 {
        lemma_leaves_stash(children, (upto - 1) as nat);
    }
}

/// Without stashed children there is no expansion.
pub proof fn lemma_no_expansions(combs: Seq<Entries>, upto: nat)
    requires
        upto <= combs.len(),
    ensures
        expansions(combs, Seq::empty(), upto).len() == 0,
    decreases upto,
{
    if upto > 0 {
        lemma_no_expansions(combs, (upto - 1) as nat);
    }
}

/// For a node whose children are all leaves, the shuffle is the flat phase:
/// exactly `2^n - 1` variants, where `n` is the number of children, and
/// variant `k` holds the children that the mask `k + 1` selects.
pub proof fn lemma_shuffle_of_leaves(t: Tree)
    requires
        all_leaves(t),
    ensures
        shuffle(t) == flat(properties(t)),
        shuffle(t).len() == pow2(t.children.len()) - 1,
{
    let combs = flat(properties(t));
    lemma_pow2_pos(t.children.len());
    lemma_leaves_stash(t.children, t.children.len());
    assert(stash(t.children, t.children.len()) =~= Seq::empty());
    lemma_no_expansions(combs, combs.len());
    assert(shuffle(t) =~= combs);
}

/// For a node whose children are all leaves with different names, the key
/// set of each variant is a non-empty set of child names, and two different
/// variants have different key sets.
pub proof fn lemma_leaf_variants_are_distinct_subsets(t: Tree, a: int, b: int)
    requires
        all_leaves(t),
        distinct_names(t),
        0 <= a < shuffle(t).len(),
        0 <= b < shuffle(t).len(),
    ensures
        exists|name: Seq<char>| keys(shuffle(t)[a]).contains(name),
        forall|name: Seq<char>|
            keys(shuffle(t)[a]).contains(name) ==> exists|i: int|
                0 <= i < t.children.len() && (#[trigger] t.children[i]).name == name,
        a != b ==> keys(shuffle(t)[a]) != keys(shuffle(t)[b]),
{
    let props = properties(t);
    let n = props.len();
    lemma_shuffle_of_leaves(t);
    lemma_pow2_pos(n);
    let ma = (a + 1) as nat;
    let mb = (b + 1) as nat;
    lemma_select_keys(props, ma, n);
    lemma_select_keys(props, mb, n);
    assert(shuffle(t)[a] == select(props, ma, n));
    assert(shuffle(t)[b] == select(props, mb, n));
    assert forall|i: int| !selected(0, i) by {
        lemma_pow2_pos(i as nat);
        assert(0nat / pow2(i as nat) == 0) by (nonlinear_arith)
            requires
                pow2(i as nat) > 0,
        ;
    }
    lemma_masks_differ(ma, 0, n);
    let i = choose|i: int| 0 <= i < n && selected(ma, i) != selected(0, i);
    assert(selected(ma, i));
    assert(keys(shuffle(t)[a]).contains(props[i].0));
    assert forall|name: Seq<char>| keys(shuffle(t)[a]).contains(name) implies exists|i: int|
        0 <= i < t.children.len() && (#[trigger] t.children[i]).name == name by {
        let i = choose|i: int|
            0 <= i < n && selected(ma, i) && (#[trigger] props[i]).0 == name;
        assert(t.children[i].name == name);
    }
    if a != b {
        lemma_masks_differ(ma, mb, n);
        let d = choose|d: int| 0 <= d < n && selected(ma, d) != selected(mb, d);
        let name = props[d].0;
        assert forall|i: int| 0 <= i < n && (#[trigger] props[i]).0 == name implies i == d by {
            if i < d {
                assert(t.children[i].name != t.children[d].name);
            } else if d < i {
                assert(t.children[d].name != t.children[i].name);
            }
        }
        assert(keys(shuffle(t)[a]).contains(name) == selected(ma, d));
        assert(keys(shuffle(t)[b]).contains(name) == selected(mb, d));
    }
}

} // verus!
