//! Primary-key layouts: the parts a key is made of, the key document sent
//! to DynamoDB, and how composite key members are joined.

use crate::attr::AttributeValue;
use crate::dict::StrMap;
use crate::text::{join, joined, views};
use vstd::prelude::*;

verus! {

/// The attribute names and values of one primary key.
#[derive(Debug)]
pub struct Parts {
    /// The partition key attribute name and its value.
    pub partition: (&'static str, String),
    /// The sort key attribute name and its value, when the table has one.
    pub sort: Option<(&'static str, String)>,
}

impl Parts {
    /// A key made of a partition key alone.
    pub fn one(partition: &'static str, value: String) -> (p: Self)
        ensures
            p.partition == (partition, value),
            p.sort is None,
    {
        Parts { partition: (partition, value), sort: None }
    }

    /// A key made of a partition key and a sort key.
    pub fn two(partition: &'static str, value: String, sort: &'static str, sort_value: String) -> (p:
        Self)
        ensures
            p.partition == (partition, value),
            p.sort == Some((sort, sort_value)),
    {
        Parts { partition: (partition, value), sort: Some((sort, sort_value)) }
    }
}

/// The key document of `parts`: each key attribute bound to its string value.
pub open spec fn key_document(parts: Parts) -> Map<Seq<char>, AttributeValue> {
    let first = Map::<Seq<char>, AttributeValue>::empty().insert(
        parts.partition.0@,
        AttributeValue::S(parts.partition.1),
    );
    match parts.sort {
        Some((name, value)) => first.insert(name@, AttributeValue::S(value)),
        None => first,
    }
}

/// Builds the key document of `parts`.
pub fn document_key(parts: Parts) -> (key: StrMap<AttributeValue>)
    ensures
        key@ == key_document(parts),
{
    let Parts { partition, sort } = parts;
    let mut key = StrMap::new();
    key.insert(partition.0.to_owned(), AttributeValue::S(partition.1));
    if let Some((name, value)) = sort {
        key.insert(name.to_owned(), AttributeValue::S(value));
    }
    key
}

/// The value of a key made of several members: the members joined with `#`.
/// A key of one member is that member.
pub fn key_value(members: &Vec<String>) -> (r: String)
    ensures
        r@ == joined(views(members@), "#"@),
{
    join(members, "#")
}

/// A `begins_with`-ready sort-key prefix: each leading member followed by
/// `#`.
pub fn key_prefix(members: &Vec<String>) -> (r: String)
    ensures
        r@ == joined(views(members@).push(Seq::empty()), "#"@),
{
    let mut all = Vec::new();
    let mut i: usize = 0;
    while i < members.len()
        invariant
            i <= members@.len(),
            views(all@) == views(members@.subrange(0, i as int)),
        decreases members.len() - i,
    {
        let m = members[i].clone();
        assert(m@ == members@[i as int]@);
        let ghost prev = all@;
        all.push(m);
        assert(views(all@) =~= views(prev).push(m@));
        assert(members@.subrange(0, i + 1) =~= members@.subrange(0, i as int).push(members@[i as int]));
        assert(views(members@.subrange(0, i + 1)) =~= views(members@.subrange(0, i as int)).push(members@[i as int]@));
        i = i + 1;
    }
    all.push(String::new());
    assert(views(all@) =~= views(members@).push(Seq::empty())) by {
        assert(members@.subrange(0, members@.len() as int) =~= members@);
    }
    join(&all, "#")
}

/// A global secondary index: its name and key attribute names.
#[derive(Debug)]
pub struct Index {
    /// The index name.
    pub name: &'static str,
    /// The index's partition key attribute name.
    pub partition: &'static str,
    /// The index's sort key attribute name, when it has one.
    pub sort: Option<&'static str>,
}

/// Joining more members only extends the text: the first `k` members,
/// followed by the separator, begin the join of the first `m`.
proof fn lemma_joined_grows(members: Seq<Seq<char>>, sep: Seq<char>, k: int, m: int)
    requires
        1 <= k < m <= members.len(),
    ensures
        (joined(members.take(k), sep) + sep).is_prefix_of(joined(members.take(m), sep)),
    decreases m - k,
{
    let before = members.take(m - 1);
    assert(members.take(m).drop_last() =~= before);
    assert(joined(members.take(m), sep) == joined(before, sep) + sep + members[m - 1]);
    let head = joined(members.take(k), sep) + sep;
    if m - 1 == k {
        assert(head.is_prefix_of(joined(members.take(m), sep))) by {
            assert(joined(members.take(m), sep).subrange(0, head.len() as int) =~= head);
        }
    } else {
        lemma_joined_grows(members, sep, k, m - 1);
        let mid = joined(before, sep);
        assert(head.is_prefix_of(joined(members.take(m), sep))) by {
            assert(joined(members.take(m), sep).subrange(0, mid.len() as int) =~= mid);
            assert(joined(members.take(m), sep).subrange(0, head.len() as int) =~= mid.subrange(
                0,
                head.len() as int,
            ));
        }
    }
}

/// A `begins_with`-ready prefix of the leading members of a key, each
/// followed by `#`, begins the value of every key made of those members
/// and at least one more.
pub proof fn law_prefix_begins_key_value(members: Seq<Seq<char>>, k: int)
    requires
        0 <= k < members.len(),
    ensures
        joined(members.take(k).push(Seq::empty()), "#"@).is_prefix_of(joined(members, "#"@)),
{
    let lead = members.take(k).push(Seq::<char>::empty());
    if k == 0 {
        assert(joined(lead, "#"@) =~= Seq::<char>::empty());
    } else {
        assert(lead.drop_last() =~= members.take(k));
        assert(joined(lead, "#"@) =~= joined(members.take(k), "#"@) + "#"@);
        lemma_joined_grows(members, "#"@, k, members.len() as int);
        assert(members.take(members.len() as int) =~= members);
    }
}

/// A key document holds exactly the key's attributes, each bound to its
/// value as a string: the partition key, and the sort key when there is one
/// (which wins should the two share a name).
pub proof fn law_key_document_holds_the_key(parts: Parts)
    ensures
        key_document(parts).contains_key(parts.partition.0@),
        !(parts.sort matches Some((name, _)) && name@ == parts.partition.0@) ==> key_document(
            parts,
        )[parts.partition.0@] == AttributeValue::S(parts.partition.1),
        parts.sort matches Some((name, value)) ==> key_document(parts).contains_key(name@)
            && key_document(parts)[name@] == AttributeValue::S(value),
        forall|n: Seq<char>|
            #[trigger] key_document(parts).contains_key(n) ==> n == parts.partition.0@ || (
            parts.sort matches Some((name, _)) && n == name@),
{
}

} // verus!
