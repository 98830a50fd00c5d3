//! The decisions behind an entity's key-based operations: the condition
//! that makes a create fail on an existing item, the errors of missing and
//! incomplete reads, and how batch reads are cut into requests.

use crate::attr::AttributeValue;
use crate::dict::StrMap;
use crate::error::Error;
use crate::order::{sort_names, sorted_names};
use crate::text::{join, joined, views};
use vstd::prelude::*;

verus! {

/// The most keys DynamoDB reads in one batch request.
pub const BATCH_LIMIT: usize = 100;

/// The condition that an attribute is absent.
pub open spec fn absent_text(name: Seq<char>) -> Seq<char> {
    "attribute_not_exists("@ + name + ")"@
}

/// The condition of a create: every key attribute absent, in name order,
/// joined with `AND`.
pub open spec fn create_condition_text(key: Map<Seq<char>, AttributeValue>) -> Seq<char> {
    joined(sorted_names(key.dom()).map_values(|n: Seq<char>| absent_text(n)), " AND "@)
}

/// The condition under which a create writes: no item holds the key yet.
pub fn create_condition(key: &StrMap<AttributeValue>) -> (r: String)
    ensures
        r@ == create_condition_text(key@),
{
    let names = sort_names(key.keys());
    let mut parts: Vec<String> = Vec::new();
    let mut i: usize = 0;
    while i < names.len()
        invariant
            i <= names@.len(),
            views(parts@) == views(names@).take(i as int).map_values(|n: Seq<char>| absent_text(n)),
        decreases names.len() - i,
    {
        let mut part = "attribute_not_exists(".to_owned();
        part.append(names[i].as_str());
        part.append(")");
        let ghost prev = parts@;
        parts.push(part);
        assert(views(parts@) =~= views(prev).push(part@));
        assert(views(names@).take(i + 1) =~= views(names@).take(i as int).push(names@[i as int]@));
        i = i + 1;
        assert(views(parts@) =~= views(names@).take(i as int).map_values(
            |n: Seq<char>| absent_text(n),
        ));
    }
    assert(views(names@).take(names@.len() as int) =~= views(names@));
    join(&parts, " AND ")
}

/// The error of a get that found nothing: `{name} not found.`
pub fn not_found(name: &str) -> (e: Error)
    ensures
        e matches Error::NotFound(text) && text@ == name@ + " not found."@,
{
    let mut text = name.to_owned();
    text.append(" not found.");
    Error::NotFound(text)
}

/// The error of a batch read that DynamoDB left unfinished.
pub fn incomplete_batch(name: &str) -> (e: Error)
    ensures
        e matches Error::Unavailable(text) && text@ == name@ + " batch read was not completed."@,
{
    let mut text = name.to_owned();
    text.append(" batch read was not completed.");
    Error::Unavailable(text)
}

/// Whether a batch read left keys unprocessed: `pending` holds, for each
/// table DynamoDB reported, how many of its keys it did not read.
pub fn unfinished(pending: &Vec<usize>) -> (r: bool)
    ensures
        r == exists|i: int| 0 <= i < pending@.len() && pending@[i] > 0,
{
    let mut i: usize = 0;
    while i < pending.len()
        invariant
            i <= pending@.len(),
            forall|j: int| 0 <= j < i ==> pending@[j] == 0,
        decreases pending.len() - i,
    {
        if pending[i] > 0 {
            return true;
        }
        i = i + 1;
    }
    false
}

/// The `j`-th batch of `keys`: up to [`BATCH_LIMIT`] keys, in order.
pub open spec fn batch_of<T>(keys: Seq<T>, j: int) -> Seq<T> {
    let start = j * 100;
    let end = if start + 100 <= keys.len() {
        start + 100
    } else {
        keys.len() as int
    };
    keys.subrange(start, end)
}

/// Cuts `keys` into batches of [`BATCH_LIMIT`] keys, in order; only the
/// last batch may be shorter, and none is empty.
pub fn batches<T>(keys: Vec<T>) -> (r: Vec<Vec<T>>)
    ensures
        r@.len() == (keys@.len() + 99) / 100,
        forall|j: int| 0 <= j < r@.len() ==> (#[trigger] r@[j])@ == batch_of(keys@, j),
{
    let ghost all = keys@;
    let mut rest = keys;
    let mut out: Vec<Vec<T>> = Vec::new();
    while rest.len() > BATCH_LIMIT
        invariant
            out@.len() * 100 + rest@.len() == all.len(),
            rest@ == all.subrange((out@.len() * 100) as int, all.len() as int),
            forall|j: int| 0 <= j < out@.len() ==> (#[trigger] out@[j])@ == batch_of(all, j),
        decreases rest.len(),
    {
        let tail = rest.split_off(BATCH_LIMIT);
        let ghost k = out@.len();
        assert(rest@ =~= batch_of(all, k as int));
        out.push(rest);
        rest = tail;
        assert(rest@ =~= all.subrange((out@.len() * 100) as int, all.len() as int));
    }
    if rest.len() > 0 {
        let ghost k = out@.len();
        assert(rest@ =~= batch_of(all, k as int));
        out.push(rest);
    }
    out
}

/// Batching loses and reorders nothing: each of the `(n + 99) / 100`
/// batches holds between one and [`BATCH_LIMIT`] keys, and key `i` is the
/// `i % 100`-th key of batch `i / 100`.
pub proof fn law_batches_cover_the_keys_in_order<T>(keys: Seq<T>)
    ensures
        forall|j: int|
            0 <= j < (keys.len() + 99) / 100 ==> 0 < #[trigger] batch_of(keys, j).len() <= 100,
        forall|i: int|
            0 <= i < keys.len() ==> i / 100 < (keys.len() + 99) / 100 && i % 100 < batch_of(
                keys,
                i / 100,
            ).len() && #[trigger] batch_of(keys, i / 100)[i % 100] == keys[i],
{
    let n = keys.len() as int;
    assert forall|j: int| 0 <= j < (n + 99) / 100 implies 0 < #[trigger] batch_of(keys, j).len()
        <= 100 by {
        assert(j * 100 < n) by (nonlinear_arith)
            requires
                0 <= j < (n + 99) / 100,
                n >= 0,
        ;
    }
    assert forall|i: int| 0 <= i < n implies i / 100 < (n + 99) / 100 && i % 100 < batch_of(
        keys,
        i / 100,
    ).len() && #[trigger] batch_of(keys, i / 100)[i % 100] == keys[i] by {
        let j = i / 100;
        assert(j * 100 + i % 100 == i && 0 <= i % 100 < 100 && j >= 0) by (nonlinear_arith)
            requires
                j == i / 100,
                i >= 0,
        ;
        assert(j < (n + 99) / 100) by (nonlinear_arith)
            requires
                j == i / 100,
                0 <= i < n,
        ;
    }
}

} // verus!
