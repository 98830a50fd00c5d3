//! Single-item conditional writes: the requests an update, a merge or a
//! store compiles to, with their conditions and placeholder checks.
//!
//! A write and its condition must bind distinct placeholders. A merge
//! updates every serialized attribute but does not remove attributes absent
//! from the new value; a store replaces the whole item.

use crate::attr::AttributeValue;
use crate::dict::{distinct_keys, entry_map, lemma_entry_map_contains, lemma_entry_map_value, StrMap};
use crate::error::Error;
use crate::expression::{
    collision_report, names_collide, text_map, values_collide, Bindings, BindingsView, Expression,
};
use crate::key::{document_key, key_document, Parts};
use crate::order::{sorted_names, sort_names};
use crate::text::{decimal, joined, views, join, usize_text};
use vstd::prelude::*;

verus! {

/// `Some(m)` unless `m` is empty.
pub open spec fn present_map<V>(m: Map<Seq<char>, V>) -> Option<Map<Seq<char>, V>> {
    if m == Map::<Seq<char>, V>::empty() {
        None
    } else {
        Some(m)
    }
}

/// The view of optional name bindings.
pub open spec fn names_view(o: Option<StrMap<String>>) -> Option<Map<Seq<char>, Seq<char>>> {
    match o {
        Some(m) => Some(text_map(m@)),
        None => None,
    }
}

/// The view of optional value bindings.
pub open spec fn values_view(o: Option<StrMap<AttributeValue>>) -> Option<
    Map<Seq<char>, AttributeValue>,
> {
    match o {
        Some(m) => Some(m@),
        None => None,
    }
}

/// The view of an optional string.
pub open spec fn text_view(o: Option<String>) -> Option<Seq<char>> {
    match o {
        Some(s) => Some(s@),
        None => None,
    }
}

/// Gives back `m` unless it is empty.
pub fn present<V>(m: StrMap<V>) -> (r: Option<StrMap<V>>)
    ensures
        match r {
            Some(x) => x@ == m@ && m@ != Map::<Seq<char>, V>::empty(),
            None => m@ == Map::<Seq<char>, V>::empty(),
        },
{
    if m.is_empty() {
        None
    } else {
        Some(m)
    }
}

/// The prefix of every assembly error of a conditional write.
pub open spec fn invalid_prefix() -> Seq<char> {
    "invalid conditional write: "@
}

/// `e` reports an invalid conditional write with `detail`.
pub open spec fn invalid_with(e: Error, detail: Seq<char>) -> bool {
    e matches Error::Unavailable(text) && text@ == invalid_prefix() + detail
}

/// The error of an invalid conditional write.
pub fn invalid(detail: &str) -> (e: Error)
    ensures
        invalid_with(e, detail@),
{
    let mut text = "invalid conditional write: ".to_owned();
    text.append(detail);
    Error::Unavailable(text)
}

/// The detail of a second condition attached to one write.
pub open spec fn second_condition_text() -> Seq<char> {
    "a conditional write cannot have more than one condition"@
}

/// What a write's condition slot holds.
pub struct ConditionView {
    pub expression: Option<BindingsView>,
    pub problem: Option<Seq<char>>,
}

/// The condition slot of one write: at most one condition, and the problem
/// found when a second one was attached.
#[derive(Debug)]
pub struct Condition {
    expression: Option<Expression>,
    problem: Option<String>,
}

/// The view of an optional expression.
pub open spec fn expression_view(o: Option<Expression>) -> Option<BindingsView> {
    match o {
        Some(e) => Some(e@),
        None => None,
    }
}

/// The condition slot after attaching `e`: a second condition is recorded
/// as a problem and leaves the first in place.
pub open spec fn attached(c: ConditionView, e: BindingsView) -> ConditionView {
    match c.expression {
        Some(_) => ConditionView { expression: c.expression, problem: Some(second_condition_text()) },
        None => ConditionView { expression: Some(e), problem: c.problem },
    }
}

/// The condition slot after attaching each of `es` in turn.
pub open spec fn attached_all(c: ConditionView, es: Seq<BindingsView>) -> ConditionView
    decreases es.len(),
{
    if es.len() == 0 {
        c
    } else {
        attached_all(attached(c, es[0]), es.drop_first())
    }
}

impl View for Condition {
    type V = ConditionView;

    closed spec fn view(&self) -> ConditionView {
        ConditionView { expression: expression_view(self.expression), problem: text_view(self.problem) }
    }
}

impl Condition {
    /// An empty condition slot.
    pub fn new() -> (c: Self)
        ensures
            c@ == (ConditionView { expression: None, problem: None }),
    {
        Condition { expression: None, problem: None }
    }

    /// Attaches `expression`; a second condition is recorded as a problem
    /// and leaves the first in place.
    pub fn attach(&mut self, expression: Expression)
        ensures
            final(self)@ == attached(old(self)@, expression@),
    {
        if self.expression.is_some() {
            self.problem = Some("a conditional write cannot have more than one condition".to_owned());
            return;
        }
        self.expression = Some(expression);
    }

    /// The attached condition, or the error for the recorded problem.
    pub fn ready(self) -> (r: Result<Option<Expression>, Error>)
        ensures
            match self@.problem {
                Some(p) => r matches Err(e) && invalid_with(e, p),
                None => r matches Ok(c) && expression_view(c) == self@.expression,
            },
    {
        match self.problem {
            Some(problem) => Err(invalid(problem.as_str())),
            None => Ok(self.expression),
        }
    }
}

/// What a put request stands for.
pub struct PutRequestView {
    pub table: Seq<char>,
    pub item: Map<Seq<char>, AttributeValue>,
    pub condition: Option<Seq<char>>,
    pub names: Option<Map<Seq<char>, Seq<char>>>,
    pub values: Option<Map<Seq<char>, AttributeValue>>,
}

/// A request that writes one whole item.
#[derive(Debug)]
pub struct PutRequest {
    pub table: String,
    pub item: StrMap<AttributeValue>,
    pub condition: Option<String>,
    pub names: Option<StrMap<String>>,
    pub values: Option<StrMap<AttributeValue>>,
}

impl View for PutRequest {
    type V = PutRequestView;

    open spec fn view(&self) -> PutRequestView {
        PutRequestView {
            table: self.table@,
            item: self.item@,
            condition: text_view(self.condition),
            names: names_view(self.names),
            values: values_view(self.values),
        }
    }
}

/// What an update request stands for.
pub struct UpdateRequestView {
    pub table: Seq<char>,
    pub key: Map<Seq<char>, AttributeValue>,
    pub update: Seq<char>,
    pub condition: Option<Seq<char>>,
    pub names: Option<Map<Seq<char>, Seq<char>>>,
    pub values: Option<Map<Seq<char>, AttributeValue>>,
    pub return_all_new: bool,
}

/// A request that applies an update expression to one item.
#[derive(Debug)]
pub struct UpdateRequest {
    pub table: String,
    pub key: StrMap<AttributeValue>,
    pub update: String,
    pub condition: Option<String>,
    pub names: Option<StrMap<String>>,
    pub values: Option<StrMap<AttributeValue>>,
    /// Whether the stored item is asked back (`ReturnValues = ALL_NEW`).
    pub return_all_new: bool,
}

impl View for UpdateRequest {
    type V = UpdateRequestView;

    open spec fn view(&self) -> UpdateRequestView {
        UpdateRequestView {
            table: self.table@,
            key: self.key@,
            update: self.update@,
            condition: text_view(self.condition),
            names: names_view(self.names),
            values: values_view(self.values),
            return_all_new: self.return_all_new,
        }
    }
}

/// What a delete request stands for.
pub struct DeleteRequestView {
    pub table: Seq<char>,
    pub key: Map<Seq<char>, AttributeValue>,
    pub condition: Option<Seq<char>>,
    pub names: Option<Map<Seq<char>, Seq<char>>>,
    pub values: Option<Map<Seq<char>, AttributeValue>>,
}

/// A request that removes one item.
#[derive(Debug)]
pub struct DeleteRequest {
    pub table: String,
    pub key: StrMap<AttributeValue>,
    pub condition: Option<String>,
    pub names: Option<StrMap<String>>,
    pub values: Option<StrMap<AttributeValue>>,
}

impl View for DeleteRequest {
    type V = DeleteRequestView;

    open spec fn view(&self) -> DeleteRequestView {
        DeleteRequestView {
            table: self.table@,
            key: self.key@,
            condition: text_view(self.condition),
            names: names_view(self.names),
            values: values_view(self.values),
        }
    }
}

/// The view of a compiled update, or its error.
pub open spec fn update_result(r: Result<UpdateRequest, Error>) -> Result<UpdateRequestView, Error> {
    match r {
        Ok(q) => Ok(q@),
        Err(e) => Err(e),
    }
}

/// The view of a compiled put, or its error.
pub open spec fn put_result(r: Result<PutRequest, Error>) -> Result<PutRequestView, Error> {
    match r {
        Ok(q) => Ok(q@),
        Err(e) => Err(e),
    }
}

/// The outcome of checking `update` against an attached condition: the
/// error for a shared placeholder, if any.
pub open spec fn rejects_collision(update: BindingsView, condition: BindingsView, e: Error) -> bool {
    exists|detail: Seq<char>|
        invalid_with(e, detail) && collision_report(update, condition, Some(detail))
}

/// Whether an update and its condition share a placeholder.
pub open spec fn collides(update: BindingsView, condition: BindingsView) -> bool {
    names_collide(update, condition) || values_collide(update, condition)
}

/// The request an update expression compiles to, given its checked
/// condition.
pub open spec fn update_request_view(
    table: Seq<char>,
    key: Map<Seq<char>, AttributeValue>,
    update: BindingsView,
    condition: Option<BindingsView>,
    fetch: bool,
) -> UpdateRequestView {
    match condition {
        Some(c) => UpdateRequestView {
            table,
            key,
            update: update.statement,
            condition: Some(c.statement),
            names: present_map(update.names.union_prefer_right(c.names)),
            values: present_map(update.values.union_prefer_right(c.values)),
            return_all_new: fetch,
        },
        None => UpdateRequestView {
            table,
            key,
            update: update.statement,
            condition: None,
            names: present_map(update.names),
            values: present_map(update.values),
            return_all_new: fetch,
        },
    }
}

/// How an update, expression `update` under `condition`, settles: the
/// recorded problem, a shared placeholder, or the compiled request.
pub open spec fn update_settles(
    table: Seq<char>,
    key: Map<Seq<char>, AttributeValue>,
    update: BindingsView,
    condition: ConditionView,
    fetch: bool,
    r: Result<UpdateRequestView, Error>,
) -> bool {
    match condition.problem {
        Some(p) => r matches Err(e) && invalid_with(e, p),
        None => match condition.expression {
            Some(c) => if collides(update, c) {
                r matches Err(e) && rejects_collision(update, c, e)
            } else {
                r == Ok::<UpdateRequestView, Error>(
                    update_request_view(table, key, update, Some(c), fetch),
                )
            },
            None => r == Ok::<UpdateRequestView, Error>(
                update_request_view(table, key, update, None, fetch),
            ),
        },
    }
}

/// Joins the bindings of `update` and an optional condition into one
/// request's statement, condition text and placeholder maps. The two must
/// share no placeholder.
pub(crate) fn combine(update: Bindings, condition: Option<Expression>) -> (r: (
    String,
    Option<String>,
    Option<StrMap<String>>,
    Option<StrMap<AttributeValue>>,
))
    ensures
        r.0@ == update@.statement,
        ({
            let u = update@;
            match condition {
                Some(c) => {
                    &&& text_view(r.1) == Some(c@.statement)
                    &&& names_view(r.2) == present_map(u.names.union_prefer_right(c@.names))
                    &&& values_view(r.3) == present_map(u.values.union_prefer_right(c@.values))
                },
                None => {
                    &&& r.1 is None
                    &&& names_view(r.2) == present_map(u.names)
                    &&& values_view(r.3) == present_map(u.values)
                },
            }
        }),
{
    let ghost u = update@;
    let Bindings { statement, mut names, mut values } = update;
    let mut text = None;
    if let Some(c) = condition {
        let ghost cv = c@;
        let b = c.into_bindings();
        let Bindings { statement: cs, names: cn, values: cv2 } = b;
        names.extend(cn);
        values.extend(cv2);
        assert(text_map(names@) =~= u.names.union_prefer_right(cv.names));
        text = Some(cs);
    }
    let n = present_names(names);
    let v = present(values);
    (statement, text, n, v)
}

/// What an update builder stands for.
pub struct UpdateView {
    pub table: Seq<char>,
    pub key: Map<Seq<char>, AttributeValue>,
    pub expression: BindingsView,
    pub condition: ConditionView,
}

/// A conditional update of one item.
#[derive(Debug)]
pub struct Update {
    table: String,
    key: StrMap<AttributeValue>,
    expression: Expression,
    condition: Condition,
}

impl View for Update {
    type V = UpdateView;

    closed spec fn view(&self) -> UpdateView {
        UpdateView {
            table: self.table@,
            key: self.key@,
            expression: self.expression@,
            condition: self.condition@,
        }
    }
}

impl Update {
    /// Starts an update of the item at `key` in `table` with `expression`.
    pub fn new(table: &str, key: Parts, expression: Expression) -> (u: Self)
        ensures
            u@ == (UpdateView {
                table: table@,
                key: key_document(key),
                expression: expression@,
                condition: ConditionView { expression: None, problem: None },
            }),
    {
        Update {
            table: table.to_owned(),
            key: document_key(key),
            expression,
            condition: Condition::new(),
        }
    }

    /// Attaches the condition that must hold for the update to apply.
    ///
    /// At most one condition may be attached; a second condition fails when
    /// the request is compiled.
    pub fn when(self, condition: Expression) -> (u: Self)
        ensures
            u@.table == self@.table && u@.key == self@.key && u@.expression == self@.expression,
            u@.condition == attached(self@.condition, condition@),
    {
        let Update { table, key, expression, condition: mut slot } = self;
        slot.attach(condition);
        Update { table, key, expression, condition: slot }
    }

    fn compile(self, fetch: bool) -> (r: Result<UpdateRequest, Error>)
        ensures
            update_settles(
                self@.table,
                self@.key,
                self@.expression,
                self@.condition,
                fetch,
                update_result(r),
            ),
    {
        let ghost before = self@;
        let Update { table, key, expression, condition } = self;
        let condition = match condition.ready() {
            Ok(c) => c,
            Err(e) => return Err(e),
        };
        if let Some(c) = &condition {
            if let Some(collision) = expression.bindings().collision(c.bindings()) {
                return Err(invalid(collision.as_str()));
            }
        }
        let (update, text, names, values) = combine(expression.into_bindings(), condition);
        Ok(UpdateRequest { table, key, update, condition: text, names, values, return_all_new: fetch })
    }

    /// The update request, or the assembly error: a second condition, or a
    /// placeholder that the update and its condition both bind.
    pub fn request(self) -> (r: Result<UpdateRequest, Error>)
        ensures
            update_settles(
                self@.table,
                self@.key,
                self@.expression,
                self@.condition,
                false,
                update_result(r),
            ),
    {
        self.compile(false)
    }

    /// The update request asking for the stored item back.
    pub fn fetch_request(self) -> (r: Result<UpdateRequest, Error>)
        ensures
            update_settles(
                self@.table,
                self@.key,
                self@.expression,
                self@.condition,
                true,
                update_result(r),
            ),
    {
        self.compile(true)
    }
}

/// What a store builder stands for.
pub struct StoreView {
    pub table: Seq<char>,
    pub key: Map<Seq<char>, AttributeValue>,
    pub document: Result<Map<Seq<char>, AttributeValue>, Error>,
    pub condition: ConditionView,
}

/// The view of a serialized document, or the error serializing it.
pub open spec fn document_view(d: Result<StrMap<AttributeValue>, Error>) -> Result<
    Map<Seq<char>, AttributeValue>,
    Error,
> {
    match d {
        Ok(m) => Ok(m@),
        Err(e) => Err(e),
    }
}

/// How a store settles: the recorded problem, the serialization error, or
/// the put of the whole document with its key attributes written over it.
pub open spec fn store_settles(s: StoreView, r: Result<PutRequestView, Error>) -> bool {
    match s.condition.problem {
        Some(p) => r matches Err(e) && invalid_with(e, p),
        None => match s.document {
            Err(e) => r == Err::<PutRequestView, Error>(e),
            Ok(doc) => r == Ok::<PutRequestView, Error>(
                PutRequestView {
                    table: s.table,
                    item: doc.union_prefer_right(s.key),
                    condition: match s.condition.expression {
                        Some(c) => Some(c.statement),
                        None => None,
                    },
                    names: match s.condition.expression {
                        Some(c) => present_map(c.names),
                        None => None,
                    },
                    values: match s.condition.expression {
                        Some(c) => present_map(c.values),
                        None => None,
                    },
                },
            ),
        },
    }
}

/// Gives back name bindings unless there are none.
fn present_names(names: StrMap<String>) -> (r: Option<StrMap<String>>)
    ensures
        names_view(r) == present_map(text_map(names@)),
{
    proof {
        assert(names@.dom() =~= text_map(names@).dom());
        if names@ == Map::<Seq<char>, String>::empty() {
            assert(text_map(names@) =~= Map::<Seq<char>, Seq<char>>::empty());
        } else {
            assert(names@.dom() != Set::<Seq<char>>::empty()) by {
                if names@.dom() == Set::<Seq<char>>::empty() {
                    assert(names@ =~= Map::<Seq<char>, String>::empty());
                }
            }
            assert(text_map(names@) != Map::<Seq<char>, Seq<char>>::empty());
        }
    }
    present(names)
}

/// Splits a condition into its statement and present placeholder maps.
pub(crate) fn condition_parts(condition: Option<Expression>) -> (r: (
    Option<String>,
    Option<StrMap<String>>,
    Option<StrMap<AttributeValue>>,
))
    ensures
        match condition {
            Some(c) => {
                &&& text_view(r.0) == Some(c@.statement)
                &&& names_view(r.1) == present_map(c@.names)
                &&& values_view(r.2) == present_map(c@.values)
            },
            None => r.0 is None && r.1 is None && r.2 is None,
        },
{
    match condition {
        Some(c) => {
            let Bindings { statement, names, values } = c.into_bindings();
            (Some(statement), present_names(names), present(values))
        },
        None => (None, None, None),
    }
}

/// A conditional write of one complete item.
#[derive(Debug)]
pub struct Store {
    table: String,
    key: StrMap<AttributeValue>,
    document: Result<StrMap<AttributeValue>, Error>,
    condition: Condition,
}

impl View for Store {
    type V = StoreView;

    closed spec fn view(&self) -> StoreView {
        StoreView {
            table: self.table@,
            key: self.key@,
            document: document_view(self.document),
            condition: self.condition@,
        }
    }
}

impl Store {
    /// Starts a conditional write of the whole item `document` (or the error
    /// met serializing it) at `key` in `table`.
    pub fn new(table: &str, key: Parts, document: Result<StrMap<AttributeValue>, Error>) -> (s:
        Self)
        ensures
            s@ == (StoreView {
                table: table@,
                key: key_document(key),
                document: document_view(document),
                condition: ConditionView { expression: None, problem: None },
            }),
    {
        Store { table: table.to_owned(), key: document_key(key), document, condition: Condition::new() }
    }

    /// Attaches the condition that must hold for the item to be stored.
    ///
    /// At most one condition may be attached; a second condition fails when
    /// the request is compiled.
    pub fn when(self, condition: Expression) -> (s: Self)
        ensures
            s@.table == self@.table && s@.key == self@.key && s@.document == self@.document,
            s@.condition == attached(self@.condition, condition@),
    {
        let Store { table, key, document, condition: mut slot } = self;
        slot.attach(condition);
        Store { table, key, document, condition: slot }
    }

    /// The put request, or the assembly or serialization error.
    pub fn request(self) -> (r: Result<PutRequest, Error>)
        ensures
            store_settles(self@, put_result(r)),
    {
        let Store { table, key, document, condition } = self;
        let condition = match condition.ready() {
            Ok(c) => c,
            Err(e) => return Err(e),
        };
        let mut item = match document {
            Ok(d) => d,
            Err(e) => return Err(e),
        };
        item.extend(key);
        let (text, names, values) = condition_parts(condition);
        Ok(PutRequest { table, item, condition: text, names, values })
    }
}

/// The placeholder standing for the name of the `i`-th merged attribute.
pub open spec fn merge_name(i: nat) -> Seq<char> {
    "#m"@ + decimal(i)
}

/// The placeholder standing for the value of the `i`-th merged attribute.
pub open spec fn merge_value_name(i: nat) -> Seq<char> {
    ":m"@ + decimal(i)
}

/// The assignment of the `i`-th merged attribute: unconditional, or only
/// when the stored item lacks it (`kept`).
pub open spec fn merge_assignment(i: nat, kept: bool) -> Seq<char> {
    if kept {
        merge_name(i) + " = if_not_exists("@ + merge_name(i) + ", "@ + merge_value_name(i) + ")"@
    } else {
        merge_name(i) + " = "@ + merge_value_name(i)
    }
}

/// The assignments of the merged attributes `attrs`, in order.
pub open spec fn merge_assignments(attrs: Seq<Seq<char>>, keep: Seq<Seq<char>>) -> Seq<Seq<char>> {
    Seq::new(attrs.len(), |i: int| merge_assignment(i as nat, keep.contains(attrs[i])))
}

/// The name placeholders of the merged attributes `attrs`.
pub open spec fn merge_names(attrs: Seq<Seq<char>>) -> Map<Seq<char>, Seq<char>>
    decreases attrs.len(),
{
    if attrs.len() == 0 {
        Map::empty()
    } else {
        merge_names(attrs.drop_last()).insert(merge_name((attrs.len() - 1) as nat), attrs.last())
    }
}

/// The value placeholders of the merged attributes `attrs`, bound to their
/// values in `doc`.
pub open spec fn merge_values(
    attrs: Seq<Seq<char>>,
    doc: Map<Seq<char>, AttributeValue>,
) -> Map<Seq<char>, AttributeValue>
    decreases attrs.len(),
{
    if attrs.len() == 0 {
        Map::empty()
    } else {
        merge_values(attrs.drop_last(), doc).insert(
            merge_value_name((attrs.len() - 1) as nat),
            doc[attrs.last()],
        )
    }
}

/// The update bindings that merge the attributes of `doc` in name order.
pub open spec fn merge_bindings(
    doc: Map<Seq<char>, AttributeValue>,
    keep: Seq<Seq<char>>,
) -> BindingsView {
    let attrs = sorted_names(doc.dom());
    BindingsView {
        statement: "SET "@ + joined(merge_assignments(attrs, keep), ", "@),
        names: merge_names(attrs),
        values: merge_values(attrs, doc),
    }
}

/// The first member of `keep` that `present` lacks.
pub open spec fn first_missing(keep: Seq<Seq<char>>, present: Set<Seq<char>>) -> Option<Seq<char>>
    decreases keep.len(),
{
    if keep.len() == 0 {
        None
    } else if !present.contains(keep[0]) {
        Some(keep[0])
    } else {
        first_missing(keep.drop_first(), present)
    }
}

/// The detail of a kept attribute that the merged value does not hold.
pub open spec fn unknown_keep_text(attribute: Seq<char>) -> Seq<char> {
    "unknown merge keep attribute "@ + attribute
}

/// The detail of a merge with nothing to write.
pub open spec fn empty_merge_text() -> Seq<char> {
    "a merge must write at least one attribute"@
}

/// What a merge builder stands for.
pub struct MergeView {
    pub table: Seq<char>,
    pub key: Map<Seq<char>, AttributeValue>,
    pub document: Result<Map<Seq<char>, AttributeValue>, Error>,
    pub keep: Seq<Seq<char>>,
    pub condition: ConditionView,
}

/// How a merge settles. The recorded problem comes first, then the
/// serialization error, then the first kept attribute that the value (less
/// its key attributes) lacks, then a value with no attribute besides its
/// key, then a placeholder shared with the condition; otherwise the update
/// that assigns every non-key attribute, in name order, through the
/// placeholders `#m0`/`:m0`, `#m1`/`:m1`, ….
pub open spec fn merge_settles(m: MergeView, fetch: bool, r: Result<UpdateRequestView, Error>) -> bool {
    match m.condition.problem {
        Some(p) => r matches Err(e) && invalid_with(e, p),
        None => match m.document {
            Err(e) => r == Err::<UpdateRequestView, Error>(e),
            Ok(full) => {
                let doc = full.remove_keys(m.key.dom());
                match first_missing(m.keep, doc.dom()) {
                    Some(a) => r matches Err(e) && invalid_with(e, unknown_keep_text(a)),
                    None => if doc.dom() == Set::<Seq<char>>::empty() {
                        r matches Err(e) && invalid_with(e, empty_merge_text())
                    } else {
                        update_settles(
                            m.table,
                            m.key,
                            merge_bindings(doc, m.keep),
                            m.condition,
                            fetch,
                            r,
                        )
                    },
                }
            },
        },
    }
}

/// A conditional merge of every serialized attribute in one item.
#[derive(Debug)]
pub struct Merge {
    table: String,
    key: StrMap<AttributeValue>,
    document: Result<StrMap<AttributeValue>, Error>,
    keep: Vec<String>,
    condition: Condition,
}

impl View for Merge {
    type V = MergeView;

    closed spec fn view(&self) -> MergeView {
        MergeView {
            table: self.table@,
            key: self.key@,
            document: document_view(self.document),
            keep: views(self.keep@),
            condition: self.condition@,
        }
    }
}

/// Builds the text `a` + `b`.
fn concat(a: &str, b: &str) -> (r: String)
    ensures
        r@ == a@ + b@,
{
    let mut r = a.to_owned();
    r.append(b);
    r
}

/// Whether `names` holds `name`.
fn holds(names: &Vec<String>, name: &String) -> (r: bool)
    ensures
        r == views(names@).contains(name@),
{
    let mut i: usize = 0;
    while i < names.len()
        invariant
            i <= names@.len(),
            forall|j: int| 0 <= j < i ==> names@[j]@ != name@,
        decreases names.len() - i,
    {
        if names[i] == *name {
            assert(views(names@)[i as int] == name@);
            return true;
        }
        i = i + 1;
    }
    assert(!views(names@).contains(name@)) by {
        if views(names@).contains(name@) {
            let j = choose|j: int| 0 <= j < views(names@).len() && views(names@)[j] == name@;
            assert(names@[j]@ == name@);
        }
    }
    false
}

/// The maps of `attrs.take(i)` grow by one entry at a time.
proof fn lemma_merge_step(attrs: Seq<Seq<char>>, doc: Map<Seq<char>, AttributeValue>, i: int)
    requires
        0 <= i < attrs.len(),
    ensures
        merge_names(attrs.take(i + 1)) == merge_names(attrs.take(i)).insert(
            merge_name(i as nat),
            attrs[i],
        ),
        merge_values(attrs.take(i + 1), doc) == merge_values(attrs.take(i), doc).insert(
            merge_value_name(i as nat),
            doc[attrs[i]],
        ),
{
    assert(attrs.take(i + 1).drop_last() =~= attrs.take(i));
}

impl Merge {
    /// Starts a conditional merge of every attribute of `document` (or the
    /// error met serializing it) into the item at `key` in `table`.
    ///
    /// Attributes absent from `document` are not removed.
    pub fn new(table: &str, key: Parts, document: Result<StrMap<AttributeValue>, Error>) -> (m:
        Self)
        ensures
            m@ == (MergeView {
                table: table@,
                key: key_document(key),
                document: document_view(document),
                keep: Seq::empty(),
                condition: ConditionView { expression: None, problem: None },
            }),
    {
        let m = Merge {
            table: table.to_owned(),
            key: document_key(key),
            document,
            keep: Vec::new(),
            condition: Condition::new(),
        };
        assert(views(m.keep@) =~= Seq::<Seq<char>>::empty());
        m
    }

    /// Writes `attribute` only when the stored item does not already have
    /// it. Unknown attribute names fail when the merge is compiled.
    pub fn keep(self, attribute: &str) -> (m: Self)
        ensures
            m@ == (MergeView { keep: self@.keep.push(attribute@), ..self@ }),
    {
        let Merge { table, key, document, mut keep, condition } = self;
        let ghost prev = keep@;
        let a = attribute.to_owned();
        keep.push(a);
        assert(views(keep@) =~= views(prev).push(attribute@));
        Merge { table, key, document, keep, condition }
    }

    /// Attaches the condition that must hold for the merge to apply.
    ///
    /// At most one condition may be attached; a second condition fails when
    /// the request is compiled.
    pub fn when(self, condition: Expression) -> (m: Self)
        ensures
            m@.table == self@.table && m@.key == self@.key && m@.document == self@.document
                && m@.keep == self@.keep,
            m@.condition == attached(self@.condition, condition@),
    {
        let Merge { table, key, document, keep, condition: mut slot } = self;
        slot.attach(condition);
        Merge { table, key, document, keep, condition: slot }
    }

    fn compile(self, fetch: bool) -> (r: Result<UpdateRequest, Error>)
        ensures
            merge_settles(self@, fetch, update_result(r)),
    {
        let ghost view = self@;
        let Merge { table, key, document, keep, condition } = self;
        let condition = match condition.ready() {
            Ok(c) => c,
            Err(e) => return Err(e),
        };
        let mut doc = match document {
            Ok(d) => d,
            Err(e) => return Err(e),
        };
        let ghost full = doc@;
        // The key attributes are not assigned.
        let key_list = key.keys();
        let mut i: usize = 0;
        while i < key_list.len()
            invariant
                i <= key_list@.len(),
                doc@ == full.remove_keys(views(key_list@).subrange(0, i as int).to_set()),
            decreases key_list.len() - i,
        {
            let ghost before = views(key_list@).subrange(0, i as int);
            doc.remove(key_list[i].as_str());
            assert(views(key_list@).subrange(0, i + 1).to_set() =~= before.to_set().insert(
                key_list@[i as int]@,
            )) by {
                assert(views(key_list@).subrange(0, i + 1) =~= before.push(key_list@[i as int]@));
                crate::order::lemma_push_to_set(before, key_list@[i as int]@);
            }
            i = i + 1;
            assert(doc@ =~= full.remove_keys(views(key_list@).subrange(0, i as int).to_set()));
        }
        assert(views(key_list@).subrange(0, key_list@.len() as int) =~= views(key_list@));
        let ghost merged = doc@;
        assert(merged =~= full.remove_keys(key@.dom()));
        // Every kept attribute must be merged.
        let mut k: usize = 0;
        assert(views(keep@).skip(0) =~= views(keep@));
        while k < keep.len()
            invariant
                k <= keep@.len(),
                doc@ == merged,
                view == self@,
                view.document == Ok::<Map<Seq<char>, AttributeValue>, Error>(full),
                view.keep == views(keep@),
                view.key == key@,
                view.condition.problem is None,
                merged == full.remove_keys(view.key.dom()),
                first_missing(views(keep@), merged.dom()) == first_missing(
                    views(keep@).skip(k as int),
                    merged.dom(),
                ),
            decreases keep.len() - k,
        {
            assert(views(keep@).skip(k as int)[0] == keep@[k as int]@);
            if !doc.contains_key(keep[k].as_str()) {
                let detail = concat("unknown merge keep attribute ", keep[k].as_str());
                assert(first_missing(views(keep@).skip(k as int), merged.dom()) == Some(
                    keep@[k as int]@,
                ));
                assert(detail@ == unknown_keep_text(keep@[k as int]@));
                let e = invalid(detail.as_str());
                assert(invalid_with(e, unknown_keep_text(keep@[k as int]@)));
                return Err(e);
            }
            assert(views(keep@).skip(k as int).drop_first() =~= views(keep@).skip(k + 1));
            k = k + 1;
        }
        assert(first_missing(views(keep@).skip(k as int), merged.dom()) is None);
        if doc.is_empty() {
            assert(merged.dom() =~= Set::<Seq<char>>::empty());
            return Err(invalid("a merge must write at least one attribute"));
        }
        assert(merged.dom() != Set::<Seq<char>>::empty()) by {
            if merged.dom() == Set::<Seq<char>>::empty() {
                assert(merged =~= Map::<Seq<char>, AttributeValue>::empty());
            }
        }
        // Assign the attributes in name order.
        let attrs = sort_names(doc.keys());
        let ghost order = views(attrs@);
        assert(order == sorted_names(merged.dom()));
        proof {
            crate::order::lemma_ascending_distinct(order);
        }
        let mut assignments: Vec<String> = Vec::new();
        let mut names: StrMap<String> = StrMap::new();
        let mut values: StrMap<AttributeValue> = StrMap::new();
        let mut j: usize = 0;
        assert(text_map(names@) =~= merge_names(order.take(0)));
        assert(values@ =~= merge_values(order.take(0), merged));
        while j < attrs.len()
            invariant
                order == views(attrs@),
                order.no_duplicates(),
                order.to_set() == merged.dom(),
                j <= attrs@.len(),
                views(assignments@) == merge_assignments(order, views(keep@)).take(j as int),
                text_map(names@) == merge_names(order.take(j as int)),
                values@ == merge_values(order.take(j as int), merged),
                doc@ == merged.remove_keys(order.take(j as int).to_set()),
            decreases attrs.len() - j,
        {
            let number = usize_text(j);
            let name = concat("#m", number.as_str());
            let value_name = concat(":m", number.as_str());
            let kept = holds(&keep, &attrs[j]);
            let assignment = if kept {
                let mut a = concat(name.as_str(), " = if_not_exists(");
                a.append(name.as_str());
                a.append(", ");
                a.append(value_name.as_str());
                a.append(")");
                a
            } else {
                let mut a = concat(name.as_str(), " = ");
                a.append(value_name.as_str());
                a
            };
            assert(assignment@ == merge_assignment(j as nat, views(keep@).contains(order[j as int])));
            let ghost prev = assignments@;
            assignments.push(assignment);
            assert(views(assignments@) =~= views(prev).push(assignment@));
            assert(merge_assignments(order, views(keep@)).take(j + 1) =~= merge_assignments(
                order,
                views(keep@),
            ).take(j as int).push(assignment@));
            proof {
                lemma_merge_step(order, merged, j as int);
                assert(order.take(j as int).to_set().contains(order[j as int]) ==> false) by {
                    if order.take(j as int).to_set().contains(order[j as int]) {
                        let t = choose|t: int| 0 <= t < j && order.take(j as int)[t] == order[j as int];
                        assert(order[t] == order[j as int]);
                    }
                }
                assert(merged.dom().contains(order[j as int])) by {
                    assert(order.to_set().contains(order[j as int]));
                }
            }
            let attribute = attrs[j].clone();
            names.insert(name, attribute);
            let value = doc.take(attrs[j].as_str()).unwrap();
            values.insert(value_name, value);
            assert(text_map(names@) =~= merge_names(order.take(j + 1)));
            assert(values@ =~= merge_values(order.take(j + 1), merged));
            assert(order.take(j + 1).to_set() =~= order.take(j as int).to_set().insert(order[j as int])) by {
                assert(order.take(j + 1) =~= order.take(j as int).push(order[j as int]));
                crate::order::lemma_push_to_set(order.take(j as int), order[j as int]);
            }
            j = j + 1;
            assert(doc@ =~= merged.remove_keys(order.take(j as int).to_set()));
        }
        assert(order.take(order.len() as int) =~= order);
        assert(merge_assignments(order, views(keep@)).take(j as int) =~= merge_assignments(order, views(keep@)));
        let list = join(&assignments, ", ");
        let statement = concat("SET ", list.as_str());
        let merge = Bindings { statement, names, values };
        assert(merge@ == merge_bindings(merged, views(keep@)));
        if let Some(c) = &condition {
            if let Some(collision) = merge.collision(c.bindings()) {
                return Err(invalid(collision.as_str()));
            }
        }
        let (update, text, names, values) = combine(merge, condition);
        Ok(UpdateRequest { table, key, update, condition: text, names, values, return_all_new: fetch })
    }

    /// The update request that merges the value, or the assembly or
    /// serialization error.
    pub fn request(self) -> (r: Result<UpdateRequest, Error>)
        ensures
            merge_settles(self@, false, update_result(r)),
    {
        self.compile(false)
    }

    /// The merge request asking for the stored item back.
    pub fn fetch_request(self) -> (r: Result<UpdateRequest, Error>)
        ensures
            merge_settles(self@, true, update_result(r)),
    {
        self.compile(true)
    }
}

/// Different positions get different merge placeholders.
pub proof fn lemma_merge_names_distinct(i: nat, j: nat)
    ensures
        merge_name(i) == merge_name(j) ==> i == j,
        merge_value_name(i) == merge_value_name(j) ==> i == j,
{
    reveal_strlit("#m");
    reveal_strlit(":m");
    if merge_name(i) == merge_name(j) {
        assert(merge_name(i).skip(2) =~= decimal(i));
        assert(merge_name(j).skip(2) =~= decimal(j));
        crate::text::lemma_decimal_injective(i, j);
    }
    if merge_value_name(i) == merge_value_name(j) {
        assert(merge_value_name(i).skip(2) =~= decimal(i));
        assert(merge_value_name(j).skip(2) =~= decimal(j));
        crate::text::lemma_decimal_injective(i, j);
    }
}

/// The `i`-th attribute of `attrs` is named by `#m{i}` and valued by `:m{i}`.
proof fn lemma_merge_at(attrs: Seq<Seq<char>>, doc: Map<Seq<char>, AttributeValue>, i: int)
    requires
        0 <= i < attrs.len(),
    ensures
        merge_names(attrs).contains_key(merge_name(i as nat)),
        merge_names(attrs)[merge_name(i as nat)] == attrs[i],
        merge_values(attrs, doc).contains_key(merge_value_name(i as nat)),
        merge_values(attrs, doc)[merge_value_name(i as nat)] == doc[attrs[i]],
    decreases attrs.len(),
{
    let rest = attrs.drop_last();
    let n = (attrs.len() - 1) as nat;
    assert(merge_names(attrs) == merge_names(rest).insert(merge_name(n), attrs.last()));
    assert(merge_values(attrs, doc) == merge_values(rest, doc).insert(
        merge_value_name(n),
        doc[attrs.last()],
    ));
    if i < n {
        lemma_merge_at(rest, doc, i);
        lemma_merge_names_distinct(i as nat, n);
        assert(rest[i] == attrs[i]);
    }
}

/// Every placeholder of `attrs` is `#m{i}` (or `:m{i}`) for a position `i`.
proof fn lemma_merge_only(attrs: Seq<Seq<char>>, doc: Map<Seq<char>, AttributeValue>, p: Seq<char>)
    ensures
        merge_names(attrs).contains_key(p) ==> exists|i: int|
            0 <= i < attrs.len() && p == #[trigger] merge_name(i as nat),
        merge_values(attrs, doc).contains_key(p) ==> exists|i: int|
            0 <= i < attrs.len() && p == #[trigger] merge_value_name(i as nat),
    decreases attrs.len(),
{
    if attrs.len() > 0 {
        let rest = attrs.drop_last();
        let n = (attrs.len() - 1) as nat;
        lemma_merge_only(rest, doc, p);
        if merge_names(attrs).contains_key(p) {
            if p == merge_name(n) {
                assert(0 <= n < attrs.len());
            } else {
                let i = choose|i: int| 0 <= i < rest.len() && p == #[trigger] merge_name(i as nat);
                assert(0 <= i < attrs.len());
            }
        }
        if merge_values(attrs, doc).contains_key(p) {
            if p == merge_value_name(n) {
                assert(0 <= n < attrs.len());
            } else {
                let i = choose|i: int|
                    0 <= i < rest.len() && p == #[trigger] merge_value_name(i as nat);
                assert(0 <= i < attrs.len());
            }
        }
    }
}

/// A merge assigns every attribute it writes exactly once: the `i`-th
/// attribute in name order is named by `#m{i}` and valued by `:m{i}` with
/// its value, and every placeholder stands for one of those attributes.
pub proof fn law_merge_assigns_each_attribute(
    doc: Map<Seq<char>, AttributeValue>,
    keep: Seq<Seq<char>>,
)
    requires
        doc.dom().finite(),
    ensures
        crate::order::ascending(sorted_names(doc.dom())),
        sorted_names(doc.dom()).to_set() == doc.dom(),
        forall|i: int|
            0 <= i < sorted_names(doc.dom()).len() ==> #[trigger] merge_bindings(
                doc,
                keep,
            ).names.contains_key(merge_name(i as nat)),
        forall|i: int|
            0 <= i < sorted_names(doc.dom()).len() ==> #[trigger] merge_bindings(doc, keep).names[merge_name(
                i as nat,
            )] == sorted_names(doc.dom())[i],
        forall|i: int|
            0 <= i < sorted_names(doc.dom()).len() ==> #[trigger] merge_bindings(
                doc,
                keep,
            ).values.contains_key(merge_value_name(i as nat)),
        forall|i: int|
            0 <= i < sorted_names(doc.dom()).len() ==> #[trigger] merge_bindings(doc, keep).values[merge_value_name(
                i as nat,
            )] == doc[sorted_names(doc.dom())[i]],
        forall|p: Seq<char>|
            merge_bindings(doc, keep).names.contains_key(p) ==> doc.dom().contains(
                #[trigger] merge_bindings(doc, keep).names[p],
            ),
        forall|p: Seq<char>, q: Seq<char>|
            merge_bindings(doc, keep).names.contains_key(p) && merge_bindings(
                doc,
                keep,
            ).names.contains_key(q) && p != q ==> #[trigger] merge_bindings(doc, keep).names[p]
                != #[trigger] merge_bindings(doc, keep).names[q],
{
    crate::order::lemma_sorted_names(doc.dom());
    let attrs = sorted_names(doc.dom());
    crate::order::lemma_ascending_distinct(attrs);
    let b = merge_bindings(doc, keep);
    assert forall|i: int| 0 <= i < attrs.len() implies #[trigger] b.names.contains_key(
        merge_name(i as nat),
    ) by {
        lemma_merge_at(attrs, doc, i);
    }
    assert forall|i: int| 0 <= i < attrs.len() implies #[trigger] b.names[merge_name(i as nat)]
        == attrs[i] by {
        lemma_merge_at(attrs, doc, i);
    }
    assert forall|i: int| 0 <= i < attrs.len() implies #[trigger] b.values.contains_key(
        merge_value_name(i as nat),
    ) by {
        lemma_merge_at(attrs, doc, i);
    }
    assert forall|i: int| 0 <= i < attrs.len() implies #[trigger] b.values[merge_value_name(
        i as nat,
    )] == doc[attrs[i]] by {
        lemma_merge_at(attrs, doc, i);
    }
    assert forall|p: Seq<char>| b.names.contains_key(p) implies doc.dom().contains(
        #[trigger] b.names[p],
    ) by {
        lemma_merge_only(attrs, doc, p);
        let i = choose|i: int| 0 <= i < attrs.len() && p == #[trigger] merge_name(i as nat);
        assert(attrs.to_set().contains(attrs[i]));
    }
    assert forall|p: Seq<char>, q: Seq<char>|
        b.names.contains_key(p) && b.names.contains_key(q) && p != q implies b.names[p]
        != b.names[q] by {
        lemma_merge_only(attrs, doc, p);
        lemma_merge_only(attrs, doc, q);
        let i = choose|i: int| 0 <= i < attrs.len() && p == #[trigger] merge_name(i as nat);
        let j = choose|j: int| 0 <= j < attrs.len() && q == #[trigger] merge_name(j as nat);
        assert(i != j);
        lemma_merge_at(attrs, doc, i);
        lemma_merge_at(attrs, doc, j);
        assert(b.names[p] == attrs[i]);
        assert(b.names[q] == attrs[j]);
        assert(attrs[i] != attrs[j]);
    }
}

/// At most one condition per write: once a second condition is attached,
/// later ones change nothing, the first stays in place, and an update
/// carrying it fails with the second-condition error.
pub proof fn law_second_condition_fails_the_write(
    c: ConditionView,
    first: BindingsView,
    second: BindingsView,
    more: Seq<BindingsView>,
    table: Seq<char>,
    key: Map<Seq<char>, AttributeValue>,
    update: BindingsView,
    fetch: bool,
    r: Result<UpdateRequestView, Error>,
)
    requires
        c.expression is None,
        update_settles(
            table,
            key,
            update,
            attached_all(c, seq![first, second] + more),
            fetch,
            r,
        ),
    ensures
        attached_all(c, seq![first, second] + more) == (ConditionView {
            expression: Some(first),
            problem: Some(second_condition_text()),
        }),
        r matches Err(e) && invalid_with(e, second_condition_text()),
{
    let all = seq![first, second] + more;
    let stuck = ConditionView { expression: Some(first), problem: Some(second_condition_text()) };
    assert(all[0] == first && all.drop_first()[0] == second);
    assert(all.drop_first().drop_first() =~= more);
    let one = attached(c, first);
    assert(attached(one, second) == stuck);
    assert(attached_all(c, all) == attached_all(one, all.drop_first()));
    assert(attached_all(one, all.drop_first()) == attached_all(stuck, more));
    lemma_stuck_condition(stuck, more);
}

/// A slot holding a condition and the second-condition problem keeps both
/// whatever is attached next.
proof fn lemma_stuck_condition(c: ConditionView, es: Seq<BindingsView>)
    requires
        c.expression is Some,
        c.problem == Some(second_condition_text()),
    ensures
        attached_all(c, es) == c,
    decreases es.len(),
{
    if es.len() > 0 {
        lemma_stuck_condition(attached(c, es[0]), es.drop_first());
    }
}

/// A store writes the key over the document: every key attribute holds its
/// key value in the stored item, every other attribute of the document holds
/// its serialized value, and the item holds nothing else.
pub proof fn law_store_writes_the_key_over_the_document(
    s: StoreView,
    r: Result<PutRequestView, Error>,
)
    requires
        store_settles(s, r),
        r is Ok,
    ensures
        s.document is Ok,
        r matches Ok(req) && {
            &&& forall|name: Seq<char>|
                #[trigger] s.key.contains_key(name) ==> req.item.contains_key(name)
                    && req.item[name] == s.key[name]
            &&& forall|name: Seq<char>|
                s.document->Ok_0.contains_key(name) && !s.key.contains_key(name)
                    ==> #[trigger] req.item.contains_key(name) && req.item[name]
                    == s.document->Ok_0[name]
            &&& forall|name: Seq<char>|
                #[trigger] req.item.contains_key(name) ==> s.key.contains_key(name)
                    || s.document->Ok_0.contains_key(name)
        },
{
}

/// The text of the `i`-th merge assignment: guarded by `if_not_exists` when
/// the attribute is kept.
pub open spec fn assignment_text(i: nat, kept: bool) -> Seq<char> {
    if kept {
        "#m"@ + decimal(i) + " = if_not_exists(#m"@ + decimal(i) + ", :m"@ + decimal(i) + ")"@
    } else {
        "#m"@ + decimal(i) + " = :m"@ + decimal(i)
    }
}

/// A merge keeps exactly the attributes asked for: its statement assigns
/// the placeholders `#m0`, `#m1`, … in order, and the `i`-th assignment is
/// guarded by `if_not_exists` exactly when the attribute that `#m{i}` names
/// is one of the kept attribute names.
pub proof fn law_merge_keeps_exactly_the_kept_attributes(
    doc: Map<Seq<char>, AttributeValue>,
    keep: Seq<Seq<char>>,
)
    requires
        doc.dom().finite(),
    ensures
        ({
            let b = merge_bindings(doc, keep);
            let n = doc.dom().len();
            &&& forall|i: int| 0 <= i < n ==> #[trigger] b.names.contains_key(merge_name(i as nat))
            &&& b.statement == "SET "@ + joined(
                Seq::new(
                    n,
                    |i: int| assignment_text(i as nat, keep.contains(b.names[merge_name(i as nat)])),
                ),
                ", "@,
            )
        }),
{
    reveal_strlit("#m");
    reveal_strlit(":m");
    reveal_strlit(" = if_not_exists(");
    reveal_strlit(" = if_not_exists(#m");
    reveal_strlit(", ");
    reveal_strlit(", :m");
    reveal_strlit(")");
    reveal_strlit(" = ");
    reveal_strlit(" = :m");
    crate::order::lemma_sorted_names(doc.dom());
    let attrs = sorted_names(doc.dom());
    crate::order::lemma_ascending_distinct(attrs);
    attrs.unique_seq_to_set();
    let b = merge_bindings(doc, keep);
    let n = doc.dom().len();
    assert(attrs.len() == n);
    assert forall|i: int| 0 <= i < n implies #[trigger] b.names.contains_key(merge_name(i as nat))
        by {
        lemma_merge_at(attrs, doc, i);
    }
    let texts = Seq::new(
        n,
        |i: int| assignment_text(i as nat, keep.contains(b.names[merge_name(i as nat)])),
    );
    assert forall|i: int| 0 <= i < n implies merge_assignments(attrs, keep)[i] == texts[i] by {
        lemma_merge_at(attrs, doc, i);
        let k = keep.contains(attrs[i]);
        assert(merge_assignment(i as nat, k) =~= assignment_text(i as nat, k));
    }
    assert(merge_assignments(attrs, keep) =~= texts);
}

/// A compiled merge keeps exactly the attributes asked for: its update
/// assigns `#m0`, `#m1`, … in order, and the `i`-th assignment is guarded
/// by `if_not_exists` exactly when the attribute the request binds to
/// `#m{i}` is one of the kept attribute names.
pub proof fn law_merge_request_keeps_exactly_the_kept_attributes(
    m: MergeView,
    fetch: bool,
    r: Result<UpdateRequestView, Error>,
)
    requires
        m.document matches Ok(d) ==> d.dom().finite(),
        merge_settles(m, fetch, r),
        r is Ok,
    ensures
        r matches Ok(req) && {
            let n = m.document->Ok_0.remove_keys(m.key.dom()).dom().len();
            &&& req.names matches Some(ns) && {
                &&& forall|i: int| 0 <= i < n ==> #[trigger] ns.contains_key(merge_name(i as nat))
                &&& req.update == "SET "@ + joined(
                    Seq::new(
                        n,
                        |i: int| assignment_text(i as nat, m.keep.contains(ns[merge_name(i as nat)])),
                    ),
                    ", "@,
                )
            }
        },
{
    let full = m.document->Ok_0;
    let doc = full.remove_keys(m.key.dom());
    assert(doc.dom() =~= full.dom().difference(m.key.dom()));
    let b = merge_bindings(doc, m.keep);
    let n = doc.dom().len();
    law_merge_keeps_exactly_the_kept_attributes(doc, m.keep);
    let req = r->Ok_0;
    assert(doc.dom() != Set::<Seq<char>>::empty());
    assert(doc.dom().finite());
    assert(n > 0) by {
        if n == 0 {
            doc.dom().lemma_len0_is_empty();
        }
    }
    assert(b.names.contains_key(merge_name(0int as nat)));
    match m.condition.expression {
        Some(c) => {
            let u = b.names.union_prefer_right(c.names);
            assert(u.contains_key(merge_name(0)));
            assert(u != Map::<Seq<char>, Seq<char>>::empty());
            assert(req.names == Some(u));
            assert forall|i: int| 0 <= i < n implies u[#[trigger] merge_name(i as nat)]
                == b.names[merge_name(i as nat)] by {
                assert(b.names.contains_key(merge_name(i as nat)));
                assert(!c.names.contains_key(merge_name(i as nat)));
            }
            let t1 = Seq::new(
                n,
                |i: int| assignment_text(i as nat, m.keep.contains(b.names[merge_name(i as nat)])),
            );
            let t2 = Seq::new(
                n,
                |i: int| assignment_text(i as nat, m.keep.contains(u[merge_name(i as nat)])),
            );
            assert(t1 =~= t2);
        },
        None => {
            assert(b.names != Map::<Seq<char>, Seq<char>>::empty());
            assert(req.names == Some(b.names));
        },
    }
}

/// A compiled update addresses its key and carries its expression and its
/// condition: every placeholder that either binds is bound in the request
/// to the same name or value, and the request binds no other.
pub proof fn law_update_request_binds_both_expressions(
    table: Seq<char>,
    key: Map<Seq<char>, AttributeValue>,
    update: BindingsView,
    condition: ConditionView,
    fetch: bool,
    r: Result<UpdateRequestView, Error>,
)
    requires
        update_settles(table, key, update, condition, fetch, r),
        r is Ok,
    ensures
        r matches Ok(req) && {
            &&& req.table == table
            &&& req.key == key
            &&& req.update == update.statement
            &&& req.return_all_new == fetch
            &&& req.condition == match condition.expression {
                Some(c) => Some(c.statement),
                None => None,
            }
            &&& forall|p: Seq<char>|
                #[trigger] update.names.contains_key(p) ==> (req.names matches Some(ns)
                    && ns.contains_key(p) && ns[p] == update.names[p])
            &&& forall|p: Seq<char>|
                #[trigger] update.values.contains_key(p) ==> (req.values matches Some(vs)
                    && vs.contains_key(p) && vs[p] == update.values[p])
            &&& condition.expression matches Some(c) ==> {
                &&& forall|p: Seq<char>|
                    #[trigger] c.names.contains_key(p) ==> (req.names matches Some(ns)
                        && ns.contains_key(p) && ns[p] == c.names[p])
                &&& forall|p: Seq<char>|
                    #[trigger] c.values.contains_key(p) ==> (req.values matches Some(vs)
                        && vs.contains_key(p) && vs[p] == c.values[p])
            }
            &&& req.names matches Some(ns) ==> forall|p: Seq<char>|
                #[trigger] ns.contains_key(p) ==> update.names.contains_key(p) || (
                condition.expression matches Some(c) && c.names.contains_key(p))
            &&& req.values matches Some(vs) ==> forall|p: Seq<char>|
                #[trigger] vs.contains_key(p) ==> update.values.contains_key(p) || (
                condition.expression matches Some(c) && c.values.contains_key(p))
        },
{
    let req = r->Ok_0;
    match condition.expression {
        Some(c) => {
            let names = update.names.union_prefer_right(c.names);
            let values = update.values.union_prefer_right(c.values);
            assert forall|p: Seq<char>| #[trigger] update.names.contains_key(p) implies (
            req.names matches Some(ns) && ns.contains_key(p) && ns[p] == update.names[p]) by {
                assert(!c.names.contains_key(p));
                assert(names.contains_key(p));
                assert(names != Map::<Seq<char>, Seq<char>>::empty());
            }
            assert forall|p: Seq<char>| #[trigger] update.values.contains_key(p) implies (
            req.values matches Some(vs) && vs.contains_key(p) && vs[p] == update.values[p]) by {
                assert(!c.values.contains_key(p));
                assert(values.contains_key(p));
                assert(values != Map::<Seq<char>, AttributeValue>::empty());
            }
            assert forall|p: Seq<char>| #[trigger] c.names.contains_key(p) implies (
            req.names matches Some(ns) && ns.contains_key(p) && ns[p] == c.names[p]) by {
                assert(names.contains_key(p));
                assert(names != Map::<Seq<char>, Seq<char>>::empty());
            }
            assert forall|p: Seq<char>| #[trigger] c.values.contains_key(p) implies (
            req.values matches Some(vs) && vs.contains_key(p) && vs[p] == c.values[p]) by {
                assert(values.contains_key(p));
                assert(values != Map::<Seq<char>, AttributeValue>::empty());
            }
        },
        None => {
            assert forall|p: Seq<char>| #[trigger] update.names.contains_key(p) implies (
            req.names matches Some(ns) && ns.contains_key(p) && ns[p] == update.names[p]) by {
                assert(update.names != Map::<Seq<char>, Seq<char>>::empty());
            }
            assert forall|p: Seq<char>| #[trigger] update.values.contains_key(p) implies (
            req.values matches Some(vs) && vs.contains_key(p) && vs[p] == update.values[p]) by {
                assert(update.values != Map::<Seq<char>, AttributeValue>::empty());
            }
        },
    }
}

/// A compiled merge writes exactly the value's attributes other than its
/// key: the placeholder pairs `#m{i}`/`:m{i}` name each of them once, with
/// its serialized value, and none names a key attribute.
pub proof fn law_merge_writes_every_non_key_attribute(
    m: MergeView,
    fetch: bool,
    r: Result<UpdateRequestView, Error>,
)
    requires
        m.document matches Ok(d) ==> d.dom().finite(),
        merge_settles(m, fetch, r),
        r is Ok,
    ensures
        r matches Ok(req) && req.names matches Some(ns) && req.values matches Some(vs) && {
            let full = m.document->Ok_0;
            let n = full.remove_keys(m.key.dom()).dom().len();
            &&& forall|i: int|
                0 <= i < n ==> {
                    &&& #[trigger] ns.contains_key(merge_name(i as nat))
                    &&& !m.key.contains_key(ns[merge_name(i as nat)])
                    &&& full.contains_key(ns[merge_name(i as nat)])
                    &&& vs.contains_key(merge_value_name(i as nat))
                    &&& vs[merge_value_name(i as nat)] == full[ns[merge_name(i as nat)]]
                }
            &&& forall|a: Seq<char>|
                #[trigger] full.contains_key(a) && !m.key.contains_key(a) ==> exists|i: int|
                    0 <= i < n && ns[#[trigger] merge_name(i as nat)] == a
        },
{
    let full = m.document->Ok_0;
    let doc = full.remove_keys(m.key.dom());
    assert(doc.dom() =~= full.dom().difference(m.key.dom()));
    assert(doc.dom().finite());
    let b = merge_bindings(doc, m.keep);
    let n = doc.dom().len();
    law_merge_assigns_each_attribute(doc, m.keep);
    crate::order::lemma_sorted_names(doc.dom());
    let attrs = sorted_names(doc.dom());
    crate::order::lemma_ascending_distinct(attrs);
    attrs.unique_seq_to_set();
    assert(attrs.len() == n);
    let req = r->Ok_0;
    assert(n > 0) by {
        if n == 0 {
            doc.dom().lemma_len0_is_empty();
        }
    }
    assert(b.names.contains_key(merge_name(0int as nat)));
    assert(b.values.contains_key(merge_value_name(0int as nat)));
    let (ns, vs) = match m.condition.expression {
        Some(c) => (b.names.union_prefer_right(c.names), b.values.union_prefer_right(c.values)),
        None => (b.names, b.values),
    };
    assert(ns.contains_key(merge_name(0int as nat)));
    assert(vs.contains_key(merge_value_name(0int as nat)));
    assert(ns != Map::<Seq<char>, Seq<char>>::empty());
    assert(vs != Map::<Seq<char>, AttributeValue>::empty());
    assert(req.names == Some(ns));
    assert(req.values == Some(vs));
    assert forall|i: int| 0 <= i < n implies {
        &&& #[trigger] ns.contains_key(merge_name(i as nat))
        &&& !m.key.contains_key(ns[merge_name(i as nat)])
        &&& full.contains_key(ns[merge_name(i as nat)])
        &&& vs.contains_key(merge_value_name(i as nat))
        &&& vs[merge_value_name(i as nat)] == full[ns[merge_name(i as nat)]]
    } by {
        assert(b.names.contains_key(merge_name(i as nat)));
        assert(b.values.contains_key(merge_value_name(i as nat)));
        if let Some(c) = m.condition.expression {
            assert(!c.names.contains_key(merge_name(i as nat)));
            assert(!c.values.contains_key(merge_value_name(i as nat)));
        }
        assert(ns[merge_name(i as nat)] == attrs[i]);
        assert(attrs.to_set().contains(attrs[i]));
        assert(doc.dom().contains(attrs[i]));
    }
    assert forall|a: Seq<char>| #[trigger] full.contains_key(a) && !m.key.contains_key(a) implies exists|i: int|
        0 <= i < n && ns[#[trigger] merge_name(i as nat)] == a by {
        assert(doc.dom().contains(a));
        assert(attrs.to_set().contains(a));
        let i = choose|i: int| 0 <= i < attrs.len() && attrs[i] == a;
        assert(b.names.contains_key(merge_name(i as nat)));
        if let Some(c) = m.condition.expression {
            assert(!c.names.contains_key(merge_name(i as nat)));
        }
        assert(ns[merge_name(i as nat)] == a);
    }
}

} // verus!
