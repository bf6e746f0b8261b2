//! The untyped configuration tree: a tagged value with strings, booleans,
//! integers, arrays and tables, plus ordered lookup and deep copying.

use vstd::prelude::*;

verus! {

/// One node of the decoded configuration document.  A table keeps its
/// entries in input order; a lookup returns the first binding of a key.
#[derive(Debug, PartialEq)]
pub enum ConfValue {
    Str(String),
    Bool(bool),
    Int(i64),
    Array(Vec<ConfValue>),
    Table(Vec<(String, ConfValue)>),
}

/// First value bound to `key` in `entries`, scanning in input order.
pub open spec fn spec_table_get(entries: Seq<(String, ConfValue)>, key: Seq<char>) -> Option<
    ConfValue,
>
    decreases entries.len(),
{
    if entries.len() == 0 {
        None
    } else if entries[0].0@ == key {
        Some(entries[0].1)
    } else {
        spec_table_get(entries.drop_first(), key)
    }
}

impl ConfValue {
    /// Value bound to `key` when this node is a table holding it.
    pub open spec fn spec_get(self, key: Seq<char>) -> Option<ConfValue> {
        match self {
            ConfValue::Table(entries) => spec_table_get(entries@, key),
            _ => None,
        }
    }

    /// Whether this node is a table with no entries.
    pub open spec fn is_empty_table(self) -> bool {
        self matches ConfValue::Table(entries) && entries@.len() == 0
    }

    /// Structural equivalence: same shape, string data equal character for
    /// character, tables equal key by key in the same order.
    pub open spec fn equiv(self, other: ConfValue) -> bool
        decreases self,
    {
        match (self, other) {
            (ConfValue::Str(a), ConfValue::Str(b)) => a@ == b@,
            (ConfValue::Bool(a), ConfValue::Bool(b)) => a == b,
            (ConfValue::Int(a), ConfValue::Int(b)) => a == b,
            (ConfValue::Array(a), ConfValue::Array(b)) => a@.len() == b@.len() && (forall|i: int|
                0 <= i < a@.len() ==> (#[trigger] a@[i]).equiv(b@[i])),
            (ConfValue::Table(a), ConfValue::Table(b)) => a@.len() == b@.len() && (forall|i: int|
                0 <= i < a@.len() ==> (#[trigger] a@[i]).0@ == b@[i].0@ && a@[i].1.equiv(
                    b@[i].1,
                )),
            _ => false,
        }
    }

    /// Looks `key` up in this node, when it is a table.
    pub fn get<'a>(&'a self, key: &String) -> (r: Option<&'a ConfValue>)
        ensures
            match r {
                Some(v) => self.spec_get(key@) == Some(*v),
                None => self.spec_get(key@) is None,
            },
    {
        match self {
            ConfValue::Table(entries) => table_get(entries, key),
            _ => None,
        }
    }
}

fn table_get<'a>(entries: &'a Vec<(String, ConfValue)>, key: &String) -> (r: Option<
    &'a ConfValue,
>)
    ensures
        match r {
            Some(v) => spec_table_get(entries@, key@) == Some(*v),
            None => spec_table_get(entries@, key@) is None,
        },
{
    let n: usize = entries.len();
    let mut i: usize = 0;
    proof {
        assert(entries@.skip(0) =~= entries@);
    }
    while i < n
        invariant
            n == entries@.len(),
            i <= n,
            spec_table_get(entries@, key@) == spec_table_get(entries@.skip(i as int), key@),
        decreases n - i,
    {
        proof {
            assert(entries@.skip(i as int)[0] == entries@[i as int]);
        }
        if entries[i].0 == *key {
            return Some(&entries[i].1);
        }
        proof {
            assert(entries@.skip(i as int).drop_first() =~= entries@.skip(i as int + 1));
        }
        i = i + 1;
    }
    proof {
        assert(entries@.skip(n as int) =~= Seq::<(String, ConfValue)>::empty());
    }
    None
}

/// Equivalence is transitive.
pub proof fn lemma_equiv_trans(a: ConfValue, b: ConfValue, c: ConfValue)
    requires
        a.equiv(b),
        b.equiv(c),
    ensures
        a.equiv(c),
    decreases a,
{
    match a {
        ConfValue::Array(xs) => {
            let ys = b->Array_0;
            let zs = c->Array_0;
            assert forall|i: int| 0 <= i < xs@.len() implies (#[trigger] xs@[i]).equiv(
                zs@[i],
            ) by {
                lemma_equiv_trans(xs@[i], ys@[i], zs@[i]);
            }
        }
        ConfValue::Table(xs) => {
            let ys = b->Table_0;
            let zs = c->Table_0;
            assert forall|i: int| 0 <= i < xs@.len() implies (#[trigger] xs@[i]).0@ == zs@[i].0@
                && xs@[i].1.equiv(zs@[i].1) by {
                lemma_equiv_trans(xs@[i].1, ys@[i].1, zs@[i].1);
            }
        }
        _ => {}
    }
}

fn clone_items(items: &Vec<ConfValue>) -> (r: Vec<ConfValue>)
    ensures
        r@.len() == items@.len(),
        forall|i: int| 0 <= i < items@.len() ==> (#[trigger] r@[i]).equiv(items@[i]),
    decreases *items,
{
    let n: usize = items.len();
    let mut out: Vec<ConfValue> = Vec::new();
    let mut i: usize = 0;
    while i < n
        invariant
            n == items@.len(),
            i <= n,
            out@.len() == i as int,
            forall|j: int| 0 <= j < i as int ==> (#[trigger] out@[j]).equiv(items@[j]),
        decreases n - i,
    {
        out.push(clone_value(&items[i]));
        i = i + 1;
    }
    out
}

fn clone_entries(entries: &Vec<(String, ConfValue)>) -> (r: Vec<(String, ConfValue)>)
    ensures
        r@.len() == entries@.len(),
        forall|i: int|
            0 <= i < entries@.len() ==> (#[trigger] r@[i]).0@ == entries@[i].0@ && r@[i].1.equiv(
                entries@[i].1,
            ),
    decreases *entries,
{
    let n: usize = entries.len();
    let mut out: Vec<(String, ConfValue)> = Vec::new();
    let mut i: usize = 0;
    while i < n
        invariant
            n == entries@.len(),
            i <= n,
            out@.len() == i as int,
            forall|j: int|
                0 <= j < i as int ==> (#[trigger] out@[j]).0@ == entries@[j].0@ && out@[j].1.equiv(
                    entries@[j].1,
                ),
        decreases n - i,
    {
        let key = entries[i].0.clone();
        let val = clone_value(&entries[i].1);
        out.push((key, val));
        i = i + 1;
    }
    out
}

fn clone_value(v: &ConfValue) -> (r: ConfValue)
    ensures
        r.equiv(*v),
    decreases *v,
{
    match v {
        ConfValue::Str(s) => ConfValue::Str(s.clone()),
        ConfValue::Bool(b) => ConfValue::Bool(*b),
        ConfValue::Int(n) => ConfValue::Int(*n),
        ConfValue::Array(items) => ConfValue::Array(clone_items(items)),
        ConfValue::Table(entries) => ConfValue::Table(clone_entries(entries)),
    }
}

impl Clone for ConfValue {
    /// A deep, independent copy, structurally equivalent to the original:
    /// handing each build job its own copy of the shared renderer options
    /// keeps a later edit of one job's copy out of every other job's.
    fn clone(&self) -> (r: ConfValue)
        ensures
            r.equiv(*self),
    {
        clone_value(self)
    }
}

} // verus!
