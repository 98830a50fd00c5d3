//! Partition queries: a typed transliteration of the DynamoDB Query API.
//!
//! A query is constrained to what a single Query call can express natively —
//! a partition equality, at most one sort-key condition, a direction, and
//! pagination. Attribute names come from the entity's key schema or from an
//! index, never from strings at the call site.

use crate::attr::AttributeValue;
use crate::dict::StrMap;
use crate::error::Error;
use crate::expression::text_map;
use crate::key::Index;
use vstd::prelude::*;

verus! {

/// A sort-key condition.
#[derive(Debug)]
pub enum Sort {
    /// The sort key begins with the text.
    Prefix(String),
    /// The sort key equals the text.
    Equal(String),
}

/// What a sort-key condition stands for.
pub enum SortView {
    Prefix(Seq<char>),
    Equal(Seq<char>),
}

impl View for Sort {
    type V = SortView;

    open spec fn view(&self) -> SortView {
        match self {
            Sort::Prefix(p) => SortView::Prefix(p@),
            Sort::Equal(v) => SortView::Equal(v@),
        }
    }
}

/// What a query stands for.
pub struct QueryView {
    pub table: Seq<char>,
    pub partition_key: Seq<char>,
    pub sort_key: Option<Seq<char>>,
    pub partition: Seq<char>,
    pub index: Option<(Seq<char>, Seq<char>, Option<Seq<char>>)>,
    pub sort: Option<SortView>,
    pub newest: bool,
}

/// A query of one partition of a table or of one of its indexes.
#[derive(Debug)]
pub struct Query {
    table: String,
    partition_key: &'static str,
    sort_key: Option<&'static str>,
    partition: String,
    index: Option<&'static Index>,
    sort: Option<Sort>,
    newest: bool,
}

/// The view of an optional static string.
pub open spec fn static_view(o: Option<&'static str>) -> Option<Seq<char>> {
    match o {
        Some(s) => Some(s@),
        None => None,
    }
}

/// The view of an optional index: its name and key attribute names.
pub open spec fn index_view(o: Option<&'static Index>) -> Option<(Seq<char>, Seq<char>, Option<Seq<char>>)> {
    match o {
        Some(i) => Some((i.name@, i.partition@, static_view(i.sort))),
        None => None,
    }
}

/// The view of an optional sort condition.
pub open spec fn sort_view(o: Option<Sort>) -> Option<SortView> {
    match o {
        Some(s) => Some(s@),
        None => None,
    }
}

impl View for Query {
    type V = QueryView;

    closed spec fn view(&self) -> QueryView {
        QueryView {
            table: self.table@,
            partition_key: self.partition_key@,
            sort_key: static_view(self.sort_key),
            partition: self.partition@,
            index: index_view(self.index),
            sort: sort_view(self.sort),
            newest: self.newest,
        }
    }
}

/// What a query request stands for.
pub struct QueryRequestView {
    pub table: Seq<char>,
    pub index: Option<Seq<char>>,
    pub key_condition: Seq<char>,
    pub names: Map<Seq<char>, Seq<char>>,
    pub values: Map<Seq<char>, AttributeValue>,
    pub scan_forward: bool,
    pub start: Option<Map<Seq<char>, AttributeValue>>,
    pub limit: Option<i32>,
}

/// One Query request.
#[derive(Debug)]
pub struct QueryRequest {
    pub table: String,
    pub index: Option<String>,
    pub key_condition: String,
    pub names: StrMap<String>,
    pub values: StrMap<AttributeValue>,
    /// Whether items come in ascending sort-key order.
    pub scan_forward: bool,
    /// The key to resume after.
    pub start: Option<StrMap<AttributeValue>>,
    /// The most items to return.
    pub limit: Option<i32>,
}

/// The view of an optional cursor.
pub open spec fn cursor_view(o: Option<StrMap<AttributeValue>>) -> Option<Map<Seq<char>, AttributeValue>> {
    match o {
        Some(m) => Some(m@),
        None => None,
    }
}

impl View for QueryRequest {
    type V = QueryRequestView;

    open spec fn view(&self) -> QueryRequestView {
        QueryRequestView {
            table: self.table@,
            index: match self.index {
                Some(i) => Some(i@),
                None => None,
            },
            key_condition: self.key_condition@,
            names: text_map(self.names@),
            values: self.values@,
            scan_forward: self.scan_forward,
            start: cursor_view(self.start),
            limit: self.limit,
        }
    }
}

/// The text of the error for a sort condition on a key without a sort key.
pub open spec fn missing_sort_key_text() -> Seq<char> {
    "A sort condition was used without a sort key."@
}

/// `v` is the string attribute value `text`.
pub open spec fn holds_text(v: AttributeValue, text: Seq<char>) -> bool {
    v matches AttributeValue::S(s) && s@ == text
}

/// The text of a sort condition.
pub open spec fn sort_text(c: SortView) -> Seq<char> {
    match c {
        SortView::Prefix(p) => p,
        SortView::Equal(v) => v,
    }
}

/// The key condition expression of a query with sort condition `sort`.
pub open spec fn key_condition_text(sort: Option<SortView>) -> Seq<char> {
    match sort {
        None => "#partition = :partition"@,
        Some(SortView::Prefix(_)) => "#partition = :partition AND begins_with(#sort, :sort)"@,
        Some(SortView::Equal(_)) => "#partition = :partition AND #sort = :sort"@,
    }
}

/// The partition key attribute a query targets: the index's, when an index
/// is targeted.
pub open spec fn target_partition(q: QueryView) -> Seq<char> {
    match q.index {
        Some(i) => i.1,
        None => q.partition_key,
    }
}

/// The sort key attribute a query targets, if any.
pub open spec fn target_sort(q: QueryView) -> Option<Seq<char>> {
    match q.index {
        Some(i) => i.2,
        None => q.sort_key,
    }
}

/// How planning a query settles: a sort condition needs a sort key (the
/// index's, when an index is targeted); otherwise the request binds the
/// partition equality and the sort condition, if any.
pub open spec fn query_settles(
    q: QueryView,
    cursor: Option<Map<Seq<char>, AttributeValue>>,
    limit: Option<i32>,
    r: Result<QueryRequestView, Error>,
) -> bool {
    if q.sort is Some && target_sort(q) is None {
        r matches Err(e) && e matches Error::Unavailable(t) && t@ == missing_sort_key_text()
    } else {
        r matches Ok(v) && {
            &&& v.table == q.table
            &&& v.index == match q.index {
                Some(i) => Some(i.0),
                None => None,
            }
            &&& v.key_condition == key_condition_text(q.sort)
            &&& v.scan_forward == !q.newest
            &&& v.start == cursor
            &&& v.limit == limit
            &&& v.names == match q.sort {
                None => Map::<Seq<char>, Seq<char>>::empty().insert(
                    "#partition"@,
                    target_partition(q),
                ),
                Some(_) => Map::<Seq<char>, Seq<char>>::empty().insert(
                    "#partition"@,
                    target_partition(q),
                ).insert("#sort"@, target_sort(q)->0),
            }
            &&& v.values.dom() == match q.sort {
                None => Set::<Seq<char>>::empty().insert(":partition"@),
                Some(_) => Set::<Seq<char>>::empty().insert(":partition"@).insert(":sort"@),
            }
            &&& holds_text(v.values[":partition"@], q.partition)
            &&& q.sort matches Some(c) ==> holds_text(v.values[":sort"@], sort_text(c))
        }
    }
}

/// The view of a planned query, or its error.
pub open spec fn query_result(r: Result<QueryRequest, Error>) -> Result<QueryRequestView, Error> {
    match r {
        Ok(q) => Ok(q@),
        Err(e) => Err(e),
    }
}

/// Whether a page's cursor asks for another page: it is present and not
/// empty.
pub fn more_pages(cursor: &Option<StrMap<AttributeValue>>) -> (r: bool)
    ensures
        r == (cursor matches Some(c) && c@ != Map::<Seq<char>, AttributeValue>::empty()),
{
    match cursor {
        Some(c) => !c.is_empty(),
        None => false,
    }
}

impl Query {
    /// A query of the partition `partition` of `table`, whose key schema
    /// names the partition key `partition_key` and the sort key `sort_key`.
    pub fn new(
        table: &str,
        partition_key: &'static str,
        sort_key: Option<&'static str>,
        partition: String,
    ) -> (q: Self)
        ensures
            q@ == (QueryView {
                table: table@,
                partition_key: partition_key@,
                sort_key: static_view(sort_key),
                partition: partition@,
                index: None,
                sort: None,
                newest: false,
            }),
    {
        Query {
            table: table.to_owned(),
            partition_key,
            sort_key,
            partition,
            index: None,
            sort: None,
            newest: false,
        }
    }

    /// Targets a global secondary index instead of the primary key.
    pub fn index(self, index: &'static Index) -> (q: Self)
        ensures
            q@ == (QueryView { index: Some((index.name@, index.partition@, static_view(index.sort))), ..self@ }),
    {
        Query { index: Some(index), ..self }
    }

    /// Constrains the sort key with `begins_with(prefix)`.
    pub fn prefix(self, prefix: &str) -> (q: Self)
        ensures
            q@ == (QueryView { sort: Some(SortView::Prefix(prefix@)), ..self@ }),
    {
        Query { sort: Some(Sort::Prefix(prefix.to_owned())), ..self }
    }

    /// Constrains the sort key to the exact key part `value`.
    pub fn eq(self, value: &str) -> (q: Self)
        ensures
            q@ == (QueryView { sort: Some(SortView::Equal(value@)), ..self@ }),
    {
        Query { sort: Some(Sort::Equal(value.to_owned())), ..self }
    }

    /// Returns items in descending sort-key order (newest first when the
    /// sort key is chronological).
    pub fn newest(self) -> (q: Self)
        ensures
            q@ == (QueryView { newest: true, ..self@ }),
    {
        Query { newest: true, ..self }
    }

    /// The request for one page, resuming after `cursor` and returning at
    /// most `limit` items.
    pub fn plan(&self, cursor: Option<StrMap<AttributeValue>>, limit: Option<i32>) -> (r: Result<
        QueryRequest,
        Error,
    >)
        ensures
            query_settles(self@, cursor_view(cursor), limit, query_result(r)),
    {
        let (partition_key, sort_key) = match self.index {
            Some(index) => (index.partition, index.sort),
            None => (self.partition_key, self.sort_key),
        };
        let mut names: StrMap<String> = StrMap::new();
        names.insert("#partition".to_owned(), partition_key.to_owned());
        let mut values: StrMap<AttributeValue> = StrMap::new();
        values.insert(":partition".to_owned(), AttributeValue::S(self.partition.clone()));
        let mut condition = "#partition = :partition".to_owned();
        proof {
            reveal_strlit(":partition");
            reveal_strlit(":sort");
            assert(":partition"@.len() == 10 && ":sort"@.len() == 5);
            assert(":partition"@ != ":sort"@);
        }
        match &self.sort {
            None => {},
            Some(sort) => {
                let sort_key = match sort_key {
                    Some(k) => k,
                    None => {
                        return Err(
                            Error::Unavailable(
                                "A sort condition was used without a sort key.".to_owned(),
                            ),
                        );
                    },
                };
                match sort {
                    Sort::Prefix(prefix) => {
                        condition = "#partition = :partition AND begins_with(#sort, :sort)".to_owned();
                        values.insert(":sort".to_owned(), AttributeValue::S(prefix.clone()));
                    },
                    Sort::Equal(value) => {
                        condition = "#partition = :partition AND #sort = :sort".to_owned();
                        values.insert(":sort".to_owned(), AttributeValue::S(value.clone()));
                    },
                }
                names.insert("#sort".to_owned(), sort_key.to_owned());
            },
        }
        let index = match self.index {
            Some(i) => Some(i.name.to_owned()),
            None => None,
        };
        let r = QueryRequest {
            table: self.table.clone(),
            index,
            key_condition: condition,
            names,
            values,
            scan_forward: !self.newest,
            start: cursor,
            limit,
        };
        assert(r@.names =~= match self@.sort {
            None => Map::<Seq<char>, Seq<char>>::empty().insert("#partition"@, target_partition(self@)),
            Some(_) => Map::<Seq<char>, Seq<char>>::empty().insert(
                "#partition"@,
                target_partition(self@),
            ).insert("#sort"@, target_sort(self@)->0),
        });
        assert(r@.values.dom() =~= match self@.sort {
            None => Set::<Seq<char>>::empty().insert(":partition"@),
            Some(_) => Set::<Seq<char>>::empty().insert(":partition"@).insert(":sort"@),
        });
        Ok(r)
    }
}

/// A planned page resumes exactly where the caller says: whatever the
/// sort condition, index or direction, the request starts at the cursor
/// passed in and returns at most the limit passed in.
pub proof fn law_plan_resumes_at_the_cursor(
    q: QueryView,
    cursor: Option<Map<Seq<char>, AttributeValue>>,
    limit: Option<i32>,
    r: Result<QueryRequestView, Error>,
)
    requires
        query_settles(q, cursor, limit, r),
    ensures
        r is Ok <==> !(q.sort is Some && target_sort(q) is None),
        r matches Ok(v) ==> v.start == cursor && v.limit == limit,
{
}

/// A planned page is a query of the requested partition of the targeted
/// key: `#partition` names the index's partition key when an index is
/// targeted and the table's otherwise, `:partition` holds the partition
/// value, a prefix becomes `begins_with` and an exact value an equality on
/// `#sort`/`:sort`, and `newest` reads backwards.
pub proof fn law_plan_queries_the_requested_partition(
    q: QueryView,
    cursor: Option<Map<Seq<char>, AttributeValue>>,
    limit: Option<i32>,
    r: Result<QueryRequestView, Error>,
)
    requires
        query_settles(q, cursor, limit, r),
        r is Ok,
    ensures
        r matches Ok(v) && {
            &&& v.table == q.table
            &&& v.index == match q.index {
                Some(i) => Some(i.0),
                None => None,
            }
            &&& v.scan_forward == !q.newest
            &&& v.names.contains_key("#partition"@)
            &&& v.names["#partition"@] == match q.index {
                Some(i) => i.1,
                None => q.partition_key,
            }
            &&& v.values.contains_key(":partition"@)
            &&& v.values[":partition"@] matches AttributeValue::S(p) && p@ == q.partition
            &&& q.sort is None ==> v.key_condition == "#partition = :partition"@
                && !v.names.contains_key("#sort"@) && !v.values.contains_key(":sort"@)
            &&& q.sort matches Some(SortView::Prefix(prefix)) ==> (v.key_condition
                == "#partition = :partition AND begins_with(#sort, :sort)"@ && holds_text(
                v.values[":sort"@],
                prefix,
            ))
            &&& q.sort matches Some(SortView::Equal(value)) ==> (v.key_condition
                == "#partition = :partition AND #sort = :sort"@ && holds_text(
                v.values[":sort"@],
                value,
            ))
            &&& q.sort is Some ==> v.names.contains_key("#sort"@) && v.names["#sort"@] == match q.index {
                Some(i) => i.2->0,
                None => q.sort_key->0,
            }
        },
{
    reveal_strlit("#partition");
    reveal_strlit("#sort");
    reveal_strlit(":partition");
    reveal_strlit(":sort");
    assert("#partition"@.len() == 10 && "#sort"@.len() == 5);
    assert(":partition"@.len() == 10 && ":sort"@.len() == 5);
    assert("#partition"@ != "#sort"@);
    assert(":partition"@ != ":sort"@);
}

} // verus!
