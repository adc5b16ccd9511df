//! Modules keyed by name. Names are ordered as strings are, lexicographically
//! by their UTF-8 bytes; a collection of modules is a sequence sorted by name,
//! in which adding a module replaces the one with its name: the behaviour of
//! a `BTreeMap` from names to modules, walked in key order. The map is kept
//! as such a sequence because Verus's specification of `BTreeMap` says next
//! to nothing about a map keyed by `String`, while a sequence lets every
//! property here be proved.
use vstd::prelude::*;
use vstd::utf8::{encode_utf8, encode_utf8_decode_utf8};
use crate::pcl::{PicusModule, ModuleView};

verus! {

/// `a` comes before `b` in lexicographic byte order.
pub open spec fn bytes_lt(a: Seq<u8>, b: Seq<u8>) -> bool
    decreases a.len(),
{
    if a.len() == 0 {
        b.len() > 0
    } else if b.len() == 0 {
        false
    } else if a[0] != b[0] {
        a[0] < b[0]
    } else {
        bytes_lt(a.drop_first(), b.drop_first())
    }
}

/// Name `a` comes before name `b`: strings are ordered by their UTF-8 bytes.
pub open spec fn name_lt(a: Seq<char>, b: Seq<char>) -> bool {
    bytes_lt(encode_utf8(a), encode_utf8(b))
}

pub proof fn lemma_bytes_lt_irrefl(a: Seq<u8>)
    ensures
        !bytes_lt(a, a),
    decreases a.len(),
{
    if a.len() > 0 {
        lemma_bytes_lt_irrefl(a.drop_first());
    }
}

pub proof fn lemma_bytes_lt_trans(a: Seq<u8>, b: Seq<u8>, c: Seq<u8>)
    requires
        bytes_lt(a, b),
        bytes_lt(b, c),
    ensures
        bytes_lt(a, c),
    decreases a.len(),
{
    if a.len() > 0 && a[0] == b[0] && b[0] == c[0] {
        lemma_bytes_lt_trans(a.drop_first(), b.drop_first(), c.drop_first());
    }
}

pub proof fn lemma_bytes_lt_total(a: Seq<u8>, b: Seq<u8>)
    requires
        a != b,
    ensures
        bytes_lt(a, b) || bytes_lt(b, a),
    decreases a.len(),
{
    if a.len() > 0 && b.len() > 0 && a[0] == b[0] {
        if a.drop_first() == b.drop_first() {
            assert(a =~= seq![a[0]] + a.drop_first());
            assert(b =~= seq![b[0]] + b.drop_first());
        }
        lemma_bytes_lt_total(a.drop_first(), b.drop_first());
    } else if a.len() == 0 && b.len() == 0 {
        assert(a =~= b);
    }
}

/// Names are strictly ordered: no name comes before itself, the order is
/// transitive, and of two different names one comes first.
pub proof fn lemma_name_order(a: Seq<char>, b: Seq<char>, c: Seq<char>)
    ensures
        !name_lt(a, a),
        name_lt(a, b) && name_lt(b, c) ==> name_lt(a, c),
        a != b ==> name_lt(a, b) || name_lt(b, a),
{
    lemma_bytes_lt_irrefl(encode_utf8(a));
    if name_lt(a, b) && name_lt(b, c) {
        lemma_bytes_lt_trans(encode_utf8(a), encode_utf8(b), encode_utf8(c));
    }
    if a != b {
        encode_utf8_decode_utf8(a);
        encode_utf8_decode_utf8(b);
        assert(encode_utf8(a) != encode_utf8(b));
        lemma_bytes_lt_total(encode_utf8(a), encode_utf8(b));
    }
}

/// Whether name `a` comes before name `b`.
pub fn name_less(a: &String, b: &String) -> (r: bool)
    ensures
        r == name_lt(a@, b@),
{
    let x = a.as_str().as_bytes();
    let y = b.as_str().as_bytes();
    assert(x@ == encode_utf8(a@));
    assert(y@ == encode_utf8(b@));
    let mut i: usize = 0;
    assert(x@.skip(0) =~= x@);
    assert(y@.skip(0) =~= y@);
    while i < x.len() && i < y.len()
        invariant
            i <= x@.len(),
            i <= y@.len(),
            x@ == encode_utf8(a@),
            y@ == encode_utf8(b@),
            bytes_lt(x@, y@) == bytes_lt(x@.skip(i as int), y@.skip(i as int)),
        decreases x@.len() - i,
    {
        assert(x@.skip(i as int)[0] == x@[i as int]);
        assert(y@.skip(i as int)[0] == y@[i as int]);
        if x[i] != y[i] {
            assert(x@.skip(i as int).len() > 0 && y@.skip(i as int).len() > 0);
            assert(bytes_lt(x@.skip(i as int), y@.skip(i as int)) == (x@[i as int] < y@[i as int]));
            return x[i] < y[i];
        }
        assert(x@.skip(i as int).drop_first() =~= x@.skip(i + 1));
        assert(y@.skip(i as int).drop_first() =~= y@.skip(i + 1));
        i += 1;
    }
    i == x.len() && i < y.len()
}

/// Where a module named `name` goes: after every leading module whose name
/// comes before it.
pub open spec fn insert_pos(ms: Seq<ModuleView>, name: Seq<char>) -> int
    decreases ms.len(),
{
    if ms.len() == 0 || !name_lt(ms[0].name, name) {
        0
    } else {
        1 + insert_pos(ms.drop_first(), name)
    }
}

pub proof fn lemma_insert_pos(ms: Seq<ModuleView>, name: Seq<char>)
    ensures
        0 <= insert_pos(ms, name) <= ms.len(),
        forall|k: int| 0 <= k < insert_pos(ms, name) ==> name_lt(#[trigger] ms[k].name, name),
        insert_pos(ms, name) < ms.len() ==> !name_lt(ms[insert_pos(ms, name)].name, name),
    decreases ms.len(),
{
    if ms.len() > 0 && name_lt(ms[0].name, name) {
        let rest = ms.drop_first();
        lemma_insert_pos(rest, name);
        assert forall|k: int| 0 <= k < insert_pos(ms, name) implies name_lt(#[trigger] ms[k].name, name) by {
            if k > 0 {
                assert(ms[k] == rest[k - 1]);
            }
        }
    }
}

/// Adds a module, replacing the one with its name. A new name goes after
/// every leading module whose name comes before it, so modules sorted by name
/// stay sorted.
pub open spec fn put_module(ms: Seq<ModuleView>, m: ModuleView) -> Seq<ModuleView> {
    let p = insert_pos(ms, m.name);
    if p < ms.len() && ms[p].name == m.name {
        ms.update(p, m)
    } else {
        ms.insert(p, m)
    }
}

/// Adds modules one after the other, each replacing the one with its name.
pub open spec fn merge_modules(ms: Seq<ModuleView>, added: Seq<ModuleView>) -> Seq<ModuleView>
    decreases added.len(),
{
    if added.len() == 0 {
        ms
    } else {
        put_module(merge_modules(ms, added.drop_last()), added.last())
    }
}

/// The modules' names are in strictly increasing order.
pub open spec fn names_sorted(ms: Seq<ModuleView>) -> bool {
    forall|i: int, j: int| #![trigger ms[i], ms[j]] 0 <= i < j < ms.len() ==> name_lt(ms[i].name, ms[j].name)
}

pub open spec fn views(ms: Seq<PicusModule>) -> Seq<ModuleView> {
    ms.map_values(|m: PicusModule| m@)
}

/// Adds `m` to the modules, replacing the one with its name.
pub fn put_module_into(ms: &mut Vec<PicusModule>, m: PicusModule)
    ensures
        views(final(ms)@) == put_module(views(old(ms)@), m@),
{
    let ghost v = views(ms@);
    let mut p: usize = 0;
    assert(v.skip(0) =~= v);
    while p < ms.len()
        invariant_except_break
            p <= ms@.len(),
            ms@ == old(ms)@,
            v == views(ms@),
            insert_pos(v, m@.name) == p + insert_pos(v.skip(p as int), m@.name),
        ensures
            p <= ms@.len(),
            ms@ == old(ms)@,
            v == views(ms@),
            insert_pos(v, m@.name) == p,
        decreases ms@.len() - p,
    {
        assert(v.skip(p as int)[0] == v[p as int]);
        assert(v[p as int] == ms@[p as int]@);
        if !name_less(&ms[p].name, &m.name) {
            break;
        }
        assert(v.skip(p as int).drop_first() =~= v.skip(p + 1));
        p += 1;
    }
    if p < ms.len() && ms[p].name == m.name {
        assert(v[p as int] == ms@[p as int]@);
        ms.set(p, m);
        assert(views(ms@) =~= v.update(p as int, m@));
    } else {
        ms.insert(p, m);
        assert(views(ms@) =~= v.insert(p as int, m@));
    }
}

} // verus!
