//! The key-schema declaration of a storage model, as the `#[entity(…)]`
//! attribute states it, and what a schema derivation generates from it.
//!
//! The attribute grammar: `pk(field, …)` (required) and `sk(field, …)`
//! (optional) list the fields composing each key; `index(name = "…", pk(…),
//! sk(…))` declares a global secondary index; `name = "…"` overrides the
//! display name. A single-field key uses the field's lowerCamelCase name;
//! once a component is composite, the synthetic names `pk`/`sk` are used and
//! members are joined with `#`.

use crate::tokens::{entity_items, read_entity_items, Token};
use crate::write::text_view;
use crate::text::{ends_with, chars_of, string_of, usize_text, decimal, views};
use vstd::prelude::*;

verus! {

/// The lowerCamelCase form of a name, as `heck` renders it.
pub uninterp spec fn lower_camel_case(name: Seq<char>) -> Seq<char>;

/// The SHOUTY_SNAKE_CASE form of a name, as `heck` renders it.
pub uninterp spec fn shouty_snake_case(name: Seq<char>) -> Seq<char>;

/// `heck::ToLowerCamelCase::to_lower_camel_case`: the contract claims only
/// that the result is a fixed function of the name.
#[verifier::external_body]
fn to_lower_camel(name: &str) -> (r: String)
    ensures
        r@ == lower_camel_case(name@),
{
    heck::ToLowerCamelCase::to_lower_camel_case(name)
}

/// `heck::ToShoutySnakeCase::to_shouty_snake_case`: the contract claims
/// only that the result is a fixed function of the name.
#[verifier::external_body]
pub(crate) fn to_shouty_snake(name: &str) -> (r: String)
    ensures
        r@ == shouty_snake_case(name@),
{
    heck::ToShoutySnakeCase::to_shouty_snake_case(name)
}

/// A key field as written in the attribute: a dotted path `a.b.c`, never
/// empty.
pub struct Field {
    segments: Vec<String>,
}

impl View for Field {
    type V = Seq<Seq<char>>;

    closed spec fn view(&self) -> Seq<Seq<char>> {
        views(self.segments@)
    }
}

/// The views of a list of fields.
pub open spec fn fields_view(fs: Seq<Field>) -> Seq<Seq<Seq<char>>> {
    fs.map_values(|f: Field| f@)
}

impl Field {
    #[verifier::type_invariant]
    spec fn has_segments(self) -> bool {
        self.segments@.len() > 0
    }

    /// The path `first.rest…`.
    pub fn new(first: String, rest: Vec<String>) -> (f: Self)
        ensures
            f@ == seq![first@] + views(rest@),
    {
        let mut segments = Vec::new();
        segments.push(first);
        let mut tail = rest;
        segments.append(&mut tail);
        let f = Field { segments };
        assert(f@ =~= seq![first@] + views(rest@));
        f
    }

    /// The segments of the path.
    pub fn segments(&self) -> (r: &Vec<String>)
        ensures
            views(r@) == self@,
            r@.len() > 0,
    {
        proof {
            use_type_invariant(self);
        }
        &self.segments
    }

    /// The field's own name: the last segment of its path.
    pub fn name(&self) -> (r: &String)
        ensures
            r@ == self@.last(),
            self@.len() > 0,
    {
        proof {
            use_type_invariant(self);
        }
        &self.segments[self.segments.len() - 1]
    }
}

/// The fields composing a table's (or an index's) keys.
pub struct Key {
    pub partition: Vec<Field>,
    pub sort: Vec<Field>,
}

/// What a key declaration stands for.
pub struct KeyView {
    pub partition: Seq<Seq<Seq<char>>>,
    pub sort: Seq<Seq<Seq<char>>>,
}

impl View for Key {
    type V = KeyView;

    open spec fn view(&self) -> KeyView {
        KeyView { partition: fields_view(self.partition@), sort: fields_view(self.sort@) }
    }
}

/// The key attribute names of a table or an index.
pub struct Names {
    pub partition: String,
    pub sort: Option<String>,
}

/// The attribute name of a single-field key: the field's name in
/// lowerCamelCase.
pub open spec fn attribute_name_of(fields: Seq<Seq<Seq<char>>>) -> Seq<char> {
    lower_camel_case(fields[0].last())
}

/// Whether any key component is composite.
pub open spec fn composite(key: KeyView) -> bool {
    key.partition.len() > 1 || key.sort.len() > 1
}

/// The partition key attribute name of `key`.
pub open spec fn partition_name(key: KeyView) -> Seq<char> {
    if composite(key) {
        "pk"@
    } else {
        attribute_name_of(key.partition)
    }
}

/// The sort key attribute name of `key`, when it has a sort key.
pub open spec fn sort_name(key: KeyView) -> Option<Seq<char>> {
    if key.sort.len() == 0 {
        None
    } else if composite(key) {
        Some("sk"@)
    } else {
        Some(attribute_name_of(key.sort))
    }
}

/// The attribute name of a single-field key.
pub fn attribute_name(fields: &Vec<Field>) -> (r: String)
    requires
        fields@.len() > 0,
    ensures
        r@ == attribute_name_of(fields_view(fields@)),
{
    to_lower_camel(fields[0].name().as_str())
}

impl Key {
    /// A key with no fields.
    pub fn new() -> (k: Self)
        ensures
            k@ == empty_key(),
    {
        let k = Key { partition: Vec::new(), sort: Vec::new() };
        assert(k@.partition =~= Seq::<Seq<Seq<char>>>::empty());
        assert(k@.sort =~= Seq::<Seq<Seq<char>>>::empty());
        k
    }

    /// The key attribute names: the synthetic `pk`/`sk` once any component
    /// is composite, the field's lowerCamelCase name otherwise.
    pub fn names(&self) -> (n: Names)
        requires
            self@.partition.len() > 0,
        ensures
            n.partition@ == partition_name(self@),
            match n.sort {
                Some(s) => sort_name(self@) == Some(s@),
                None => sort_name(self@) is None,
            },
    {
        let composite = self.partition.len() > 1 || self.sort.len() > 1;
        let partition = if composite {
            "pk".to_owned()
        } else {
            attribute_name(&self.partition)
        };
        let sort = if self.sort.len() == 0 {
            None
        } else if composite {
            Some("sk".to_owned())
        } else {
            Some(attribute_name(&self.sort))
        };
        Names { partition, sort }
    }
}

/// An item of an index declaration, as read from the attribute.
pub enum IndexMeta {
    /// `name = "…"`.
    Name(String),
    /// `pk(…)`.
    Pk(Vec<Field>),
    /// `sk(…)`.
    Sk(Vec<Field>),
    /// Any other path.
    Unknown,
    /// Text the attribute syntax rejects here, with the parser's message.
    Malformed(String),
}

/// An item of the `#[entity(…)]` attribute, as read from it.
pub enum Meta {
    /// `name = "…"`.
    Name(String),
    /// `pk(…)`.
    Pk(Vec<Field>),
    /// `sk(…)`.
    Sk(Vec<Field>),
    /// `index(…)`, with its own items.
    Index(Vec<IndexMeta>),
    /// Any other path.
    Unknown,
    /// Text the attribute syntax rejects here, with the parser's message.
    Malformed(String),
}

/// What an index item stands for.
pub enum IndexMetaView {
    Name(Seq<char>),
    Pk(Seq<Seq<Seq<char>>>),
    Sk(Seq<Seq<Seq<char>>>),
    Unknown,
    Malformed(Seq<char>),
}

/// What an attribute item stands for.
pub enum MetaView {
    Name(Seq<char>),
    Pk(Seq<Seq<Seq<char>>>),
    Sk(Seq<Seq<Seq<char>>>),
    Index(Seq<IndexMetaView>),
    Unknown,
    Malformed(Seq<char>),
}

impl View for IndexMeta {
    type V = IndexMetaView;

    open spec fn view(&self) -> IndexMetaView {
        match self {
            IndexMeta::Name(s) => IndexMetaView::Name(s@),
            IndexMeta::Pk(f) => IndexMetaView::Pk(fields_view(f@)),
            IndexMeta::Sk(f) => IndexMetaView::Sk(fields_view(f@)),
            IndexMeta::Unknown => IndexMetaView::Unknown,
            IndexMeta::Malformed(m) => IndexMetaView::Malformed(m@),
        }
    }
}

impl View for Meta {
    type V = MetaView;

    open spec fn view(&self) -> MetaView {
        match self {
            Meta::Name(s) => MetaView::Name(s@),
            Meta::Pk(f) => MetaView::Pk(fields_view(f@)),
            Meta::Sk(f) => MetaView::Sk(fields_view(f@)),
            Meta::Index(items) => MetaView::Index(items@.map_values(|m: IndexMeta| m@)),
            Meta::Unknown => MetaView::Unknown,
            Meta::Malformed(m) => MetaView::Malformed(m@),
        }
    }
}

/// The detail of a key list with no field.
pub open spec fn empty_fields_text() -> Seq<char> {
    "key fields cannot be empty"@
}

/// The detail of an unknown item of an index declaration.
pub open spec fn unknown_index_item_text() -> Seq<char> {
    "expected name, pk(...), or sk(...)"@
}

/// The detail of an unknown item of the attribute.
pub open spec fn unknown_item_text() -> Seq<char> {
    "expected name, pk(...), sk(...), or index(...)"@
}

/// The detail of an index without a name.
pub open spec fn unnamed_index_text() -> Seq<char> {
    "index requires name = \"...\""@
}

/// The detail of an index without a partition key.
pub open spec fn index_without_pk_text() -> Seq<char> {
    "index requires pk(...)"@
}

/// The detail of a schema without a partition key.
pub open spec fn schema_without_pk_text() -> Seq<char> {
    "schema requires pk(...)"@
}

/// The detail of a model with no or several `#[entity(…)]` attributes.
pub open spec fn attribute_count_text() -> Seq<char> {
    "Schema requires one #[entity(...)] attribute"@
}

/// What an index declaration stands for.
pub struct IndexView {
    pub name: Seq<char>,
    pub key: KeyView,
}

/// The state of reading an index declaration: its name so far and its key.
pub struct IndexDraft {
    pub name: Option<Seq<char>>,
    pub key: KeyView,
}

/// Reads one item of an index declaration.
pub open spec fn index_step(d: IndexDraft, m: IndexMetaView) -> Result<IndexDraft, Seq<char>> {
    match m {
        IndexMetaView::Name(n) => Ok(IndexDraft { name: Some(n), ..d }),
        IndexMetaView::Pk(f) => if f.len() == 0 {
            Err(empty_fields_text())
        } else {
            Ok(IndexDraft { key: KeyView { partition: f, ..d.key }, ..d })
        },
        IndexMetaView::Sk(f) => if f.len() == 0 {
            Err(empty_fields_text())
        } else {
            Ok(IndexDraft { key: KeyView { sort: f, ..d.key }, ..d })
        },
        IndexMetaView::Unknown => Err(unknown_index_item_text()),
        IndexMetaView::Malformed(msg) => Err(msg),
    }
}

/// Reads the items of an index declaration in order, stopping at the first
/// error.
pub open spec fn index_run(d: IndexDraft, items: Seq<IndexMetaView>) -> Result<IndexDraft, Seq<char>>
    decreases items.len(),
{
    if items.len() == 0 {
        Ok(d)
    } else {
        match index_step(d, items[0]) {
            Err(e) => Err(e),
            Ok(next) => index_run(next, items.drop_first()),
        }
    }
}

/// An empty key declaration.
pub open spec fn empty_key() -> KeyView {
    KeyView { partition: Seq::empty(), sort: Seq::empty() }
}

/// How an index declaration reads: its items, then a name and a partition
/// key are required.
pub open spec fn parse_index(items: Seq<IndexMetaView>) -> Result<IndexView, Seq<char>> {
    match index_run(IndexDraft { name: None, key: empty_key() }, items) {
        Err(e) => Err(e),
        Ok(d) => match d.name {
            None => Err(unnamed_index_text()),
            Some(n) => if d.key.partition.len() == 0 {
                Err(index_without_pk_text())
            } else {
                Ok(IndexView { name: n, key: d.key })
            },
        },
    }
}

/// What a schema declaration stands for.
pub struct SchemaView {
    pub name: Option<Seq<char>>,
    pub key: KeyView,
    pub indexes: Seq<IndexView>,
}

/// Reads one item of the attribute.
pub open spec fn schema_step(s: SchemaView, m: MetaView) -> Result<SchemaView, Seq<char>> {
    match m {
        MetaView::Name(n) => Ok(SchemaView { name: Some(n), ..s }),
        MetaView::Pk(f) => if f.len() == 0 {
            Err(empty_fields_text())
        } else {
            Ok(SchemaView { key: KeyView { partition: f, ..s.key }, ..s })
        },
        MetaView::Sk(f) => if f.len() == 0 {
            Err(empty_fields_text())
        } else {
            Ok(SchemaView { key: KeyView { sort: f, ..s.key }, ..s })
        },
        MetaView::Index(items) => match parse_index(items) {
            Err(e) => Err(e),
            Ok(i) => Ok(SchemaView { indexes: s.indexes.push(i), ..s }),
        },
        MetaView::Unknown => Err(unknown_item_text()),
        MetaView::Malformed(msg) => Err(msg),
    }
}

/// Reads the items of the attribute in order, stopping at the first error.
pub open spec fn schema_run(s: SchemaView, items: Seq<MetaView>) -> Result<SchemaView, Seq<char>>
    decreases items.len(),
{
    if items.len() == 0 {
        Ok(s)
    } else {
        match schema_step(s, items[0]) {
            Err(e) => Err(e),
            Ok(next) => schema_run(next, items.drop_first()),
        }
    }
}

/// The arguments an attribute is written with.
#[derive(Debug)]
pub enum Arguments {
    /// `#[path]`: none.
    Missing,
    /// `#[path = value]`.
    Value,
    /// `#[path(…)]`, with the tokens inside the parentheses.
    List(Vec<Token>),
}

/// What an attribute's arguments stand for.
pub enum ArgumentsView {
    Missing,
    Value,
    List(Seq<Token>),
}

impl View for Arguments {
    type V = ArgumentsView;

    open spec fn view(&self) -> ArgumentsView {
        match self {
            Arguments::Missing => ArgumentsView::Missing,
            Arguments::Value => ArgumentsView::Value,
            Arguments::List(ts) => ArgumentsView::List(ts@),
        }
    }
}

/// An attribute of the model: its path and its arguments.
#[derive(Debug)]
pub struct Attribute {
    pub path: String,
    pub arguments: Arguments,
}

/// What an attribute stands for.
pub struct AttributeView {
    pub path: Seq<char>,
    pub arguments: ArgumentsView,
}

impl View for Attribute {
    type V = AttributeView;

    open spec fn view(&self) -> AttributeView {
        AttributeView { path: self.path@, arguments: self.arguments@ }
    }
}

/// The detail of an `entity` attribute written without arguments.
pub open spec fn missing_arguments_text() -> Seq<char> {
    "expected attribute arguments in parentheses: #[entity(...)]"@
}

/// The detail of an `entity` attribute written as `entity = …`.
pub open spec fn value_arguments_text() -> Seq<char> {
    "expected parentheses: #[entity(...)]"@
}

/// The items of an `entity` attribute, read from its arguments.
pub open spec fn attribute_items(a: AttributeView) -> Result<Seq<MetaView>, Seq<char>> {
    match a.arguments {
        ArgumentsView::Missing => Err(missing_arguments_text()),
        ArgumentsView::Value => Err(value_arguments_text()),
        ArgumentsView::List(ts) => Ok(entity_items(ts)),
    }
}

/// The `#[entity(…)]` attributes among `attrs`.
pub open spec fn entity_attributes(attrs: Seq<AttributeView>) -> Seq<AttributeView> {
    attrs.filter(|a: AttributeView| a.path == "entity"@)
}

/// How a model's attributes read as a schema: exactly one `#[entity(…)]`
/// attribute, its items read in order, and a partition key required.
pub open spec fn parse_schema(attrs: Seq<AttributeView>) -> Result<SchemaView, Seq<char>> {
    let entity = entity_attributes(attrs);
    if entity.len() != 1 {
        Err(attribute_count_text())
    } else {
        match attribute_items(entity[0]) {
            Err(e) => Err(e),
            Ok(items) => match schema_run(
                SchemaView { name: None, key: empty_key(), indexes: Seq::empty() },
                items,
            ) {
                Err(e) => Err(e),
                Ok(s) => if s.key.partition.len() == 0 {
                    Err(schema_without_pk_text())
                } else {
                    Ok(s)
                },
            },
        }
    }
}

/// The elements of `v` in reverse order.
fn reversed<T>(v: Vec<T>) -> (r: Vec<T>)
    ensures
        r@ == v@.reverse(),
{
    let ghost all = v@;
    let mut v = v;
    let mut r: Vec<T> = Vec::new();
    while v.len() > 0
        invariant
            v@ + r@.reverse() == all,
        decreases v.len(),
    {
        let x = v.pop().unwrap();
        r.push(x);
        assert(v@ + r@.reverse() =~= all);
    }
    assert(r@.reverse().reverse() =~= r@);
    assert(r@.reverse() =~= all);
    r
}

/// A declared global secondary index.
pub struct Index {
    pub name: String,
    pub key: Key,
}

impl View for Index {
    type V = IndexView;

    open spec fn view(&self) -> IndexView {
        IndexView { name: self.name@, key: self.key@ }
    }
}

/// The view of a read index declaration, or its error.
pub open spec fn index_result(r: Result<Index, String>) -> Result<IndexView, Seq<char>> {
    match r {
        Ok(i) => Ok(i@),
        Err(e) => Err(e@),
    }
}

impl Index {
    /// Reads an index declaration from its items.
    pub fn parse(items: Vec<IndexMeta>) -> (r: Result<Index, String>)
        ensures
            index_result(r) == parse_index(items@.map_values(|m: IndexMeta| m@)),
    {
        let ghost all = items@.map_values(|m: IndexMeta| m@);
        let mut stack = reversed(items);
        let mut name: Option<String> = None;
        let mut key = Key::new();
        let ghost start = IndexDraft { name: None, key: empty_key() };
        assert(key@ =~= empty_key());
        assert(stack@.reverse().map_values(|m: IndexMeta| m@) =~= all);
        while stack.len() > 0
            invariant
                start == (IndexDraft { name: None, key: empty_key() }),
                all == items@.map_values(|m: IndexMeta| m@),
                index_run(start, all) == index_run(
                    IndexDraft {
                        name: text_view(name),
                        key: key@,
                    },
                    stack@.reverse().map_values(|m: IndexMeta| m@),
                ),
            decreases stack.len(),
        {
            let ghost draft = IndexDraft {
                name: text_view(name),
                key: key@,
            };
            let ghost before = stack@.reverse().map_values(|m: IndexMeta| m@);
            let item = stack.pop().unwrap();
            let ghost after = stack@.reverse().map_values(|m: IndexMeta| m@);
            assert(before[0] == item@ && before.drop_first() =~= after) by {
                assert(stack@.push(item).reverse() =~= seq![item] + stack@.reverse());
            }
            match item {
                IndexMeta::Name(n) => {
                    name = Some(n);
                },
                IndexMeta::Pk(fields) => {
                    if fields.len() == 0 {
                        return Err("key fields cannot be empty".to_owned());
                    }
                    key = Key { partition: fields, sort: key.sort };
                },
                IndexMeta::Sk(fields) => {
                    if fields.len() == 0 {
                        return Err("key fields cannot be empty".to_owned());
                    }
                    key = Key { partition: key.partition, sort: fields };
                },
                IndexMeta::Unknown => {
                    return Err("expected name, pk(...), or sk(...)".to_owned());
                },
                IndexMeta::Malformed(message) => {
                    return Err(message);
                },
            }
        }
        assert(stack@.reverse().map_values(|m: IndexMeta| m@) =~= Seq::<IndexMetaView>::empty());
        match name {
            None => Err("index requires name = \"...\"".to_owned()),
            Some(name) => {
                if key.partition.len() == 0 {
                    Err("index requires pk(...)".to_owned())
                } else {
                    Ok(Index { name, key })
                }
            },
        }
    }
}

/// A model's schema declaration.
pub struct Schema {
    /// The display name declared with `name = "…"`, if any.
    pub name: Option<String>,
    pub key: Key,
    pub indexes: Vec<Index>,
}

impl View for Schema {
    type V = SchemaView;

    open spec fn view(&self) -> SchemaView {
        SchemaView {
            name: text_view(self.name),
            key: self.key@,
            indexes: self.indexes@.map_values(|i: Index| i@),
        }
    }
}

/// The view of a read schema declaration, or its error.
pub open spec fn schema_result(r: Result<Schema, String>) -> Result<SchemaView, Seq<char>> {
    match r {
        Ok(s) => Ok(s@),
        Err(e) => Err(e@),
    }
}

/// The name a model is displayed as: the declared name, or the model's
/// name with a trailing `Table` removed.
pub open spec fn display_name(name: Option<Seq<char>>, ident: Seq<char>) -> Seq<char> {
    match name {
        Some(n) => n,
        None => if ident.len() >= 5 && ident.subrange(ident.len() - 5, ident.len() as int)
            == "Table"@ {
            ident.subrange(0, ident.len() - 5)
        } else {
            ident
        },
    }
}

/// Whether every key of a schema declaration names a partition key.
pub open spec fn keys_named(s: SchemaView) -> bool {
    &&& s.key.partition.len() > 0
    &&& forall|i: int| 0 <= i < s.indexes.len() ==> #[trigger] s.indexes[i].key.partition.len() > 0
}

/// Reading items keeps every index read so far with a partition key.
proof fn lemma_run_keeps_index_keys(s: SchemaView, items: Seq<MetaView>)
    requires
        forall|i: int| 0 <= i < s.indexes.len() ==> #[trigger] s.indexes[i].key.partition.len() > 0,
    ensures
        schema_run(s, items) matches Ok(t) ==> forall|i: int|
            0 <= i < t.indexes.len() ==> #[trigger] t.indexes[i].key.partition.len() > 0,
    decreases items.len(),
{
    if items.len() > 0 {
        if let Ok(next) = schema_step(s, items[0]) {
            assert forall|i: int| 0 <= i < next.indexes.len() implies #[trigger] next.indexes[
                i
            ].key.partition.len() > 0 by {
                if i == s.indexes.len() && next.indexes.len() > s.indexes.len() {
                    if let MetaView::Index(inner) = items[0] {
                        assert(next.indexes[i] == parse_index(inner)->Ok_0);
                    }
                }
            }
            lemma_run_keeps_index_keys(next, items.drop_first());
        }
    }
}

/// A declaration that reads names a partition key for itself and for each
/// of its indexes.
pub proof fn lemma_parsed_keys_named(attrs: Seq<AttributeView>)
    ensures
        parse_schema(attrs) matches Ok(s) ==> keys_named(s),
{
    let entity = entity_attributes(attrs);
    if entity.len() == 1 {
        if let Ok(items) = attribute_items(entity[0]) {
            lemma_run_keeps_index_keys(
                SchemaView { name: None, key: empty_key(), indexes: Seq::empty() },
                items,
            );
        }
    }
}

impl Schema {
    /// Reads the schema declaration from a model's attributes: exactly one
    /// `#[entity(…)]` attribute, whose items are read in order, and a
    /// partition key.
    pub fn parse(attributes: Vec<Attribute>) -> (r: Result<Schema, String>)
        ensures
            schema_result(r) == parse_schema(attributes@.map_values(|a: Attribute| a@)),
    {
        let ghost attrs = attributes@.map_values(|a: Attribute| a@);
        let ghost is_entity = |a: AttributeView| a.path == "entity"@;
        let total = attributes.len();
        let mut rest = reversed(attributes);
        let mut count: usize = 0;
        let mut first: Option<Arguments> = None;
        let mut seen: usize = 0;
        let wanted = "entity".to_owned();
        assert(attrs.take(0).filter(is_entity) =~= Seq::<AttributeView>::empty());
        while rest.len() > 0
            invariant
                wanted@ == "entity"@,
                is_entity == (|a: AttributeView| a.path == "entity"@),
                attrs == attributes@.map_values(|a: Attribute| a@),
                seen + rest@.len() == attrs.len(),
                attrs.len() <= usize::MAX,
                rest@.reverse().map_values(|a: Attribute| a@) == attrs.skip(seen as int),
                count == attrs.take(seen as int).filter(is_entity).len(),
                count <= seen,
                count == 0 <==> first is None,
                first matches Some(args) ==> args@ == attrs.take(seen as int).filter(
                    is_entity,
                )[0].arguments,
            decreases rest.len(),
        {
            let ghost before = rest@;
            let a = rest.pop().unwrap();
            assert(a@ == attrs[seen as int]) by {
                assert(before.reverse()[0] == a);
                assert(before.reverse().map_values(|a: Attribute| a@)[0] == attrs.skip(
                    seen as int,
                )[0]);
            }
            assert(rest@.reverse().map_values(|a: Attribute| a@) =~= attrs.skip(seen + 1)) by {
                assert(before.reverse() =~= seq![a] + rest@.reverse());
                assert(attrs.skip(seen as int).drop_first() =~= attrs.skip(seen + 1));
            }
            let ghost prefix = attrs.take(seen as int);
            let ghost a_view = a@;
            proof {
                assert(attrs.take(seen + 1) =~= prefix.push(a_view));
                prefix.lemma_filter_push(a_view, is_entity);
                if prefix.filter(is_entity).len() > 0 {
                    assert(prefix.filter(is_entity).push(a_view)[0] == prefix.filter(is_entity)[0]);
                }
            }
            let Attribute { path, arguments } = a;
            assert(a_view.path == path@ && a_view.arguments == arguments@);
            assert(is_entity(a_view) == (path@ == wanted@));
            if path == wanted {
                if count == 0 {
                    first = Some(arguments);
                }
                count = count + 1;
            }
            seen = seen + 1;
        }
        assert(attrs.take(seen as int) =~= attrs);
        if count != 1 {
            return Err("Schema requires one #[entity(...)] attribute".to_owned());
        }
        let arguments = match first {
            Some(arguments) => arguments,
            None => {
                return Err("Schema requires one #[entity(...)] attribute".to_owned());
            },
        };
        let items = match arguments {
            Arguments::Missing => {
                return Err(
                    "expected attribute arguments in parentheses: #[entity(...)]".to_owned(),
                );
            },
            Arguments::Value => {
                return Err("expected parentheses: #[entity(...)]".to_owned());
            },
            Arguments::List(tokens) => read_entity_items(&tokens),
        };
        let ghost all = items@.map_values(|m: Meta| m@);
        assert(attribute_items(entity_attributes(attrs)[0]) == Ok::<Seq<MetaView>, Seq<char>>(all));
        let ghost start = SchemaView { name: None, key: empty_key(), indexes: Seq::empty() };
        let mut stack = reversed(items);
        let mut name: Option<String> = None;
        let mut key = Key::new();
        let mut indexes: Vec<Index> = Vec::new();
        assert(indexes@.map_values(|i: Index| i@) =~= Seq::<IndexView>::empty());
        assert(stack@.reverse().map_values(|m: Meta| m@) =~= all);
        while stack.len() > 0
            invariant
                start == (SchemaView { name: None, key: empty_key(), indexes: Seq::empty() }),
                attribute_items(entity_attributes(attrs)[0]) == Ok::<Seq<MetaView>, Seq<char>>(all),
                entity_attributes(attrs).len() == 1,
                attrs == attributes@.map_values(|a: Attribute| a@),
                schema_run(start, all) == schema_run(
                    SchemaView {
                        name: text_view(name),
                        key: key@,
                        indexes: indexes@.map_values(|i: Index| i@),
                    },
                    stack@.reverse().map_values(|m: Meta| m@),
                ),
            decreases stack.len(),
        {
            let ghost before = stack@.reverse().map_values(|m: Meta| m@);
            let item = stack.pop().unwrap();
            let ghost after = stack@.reverse().map_values(|m: Meta| m@);
            assert(before[0] == item@ && before.drop_first() =~= after) by {
                assert(stack@.push(item).reverse() =~= seq![item] + stack@.reverse());
            }
            match item {
                Meta::Name(n) => {
                    name = Some(n);
                },
                Meta::Pk(fields) => {
                    if fields.len() == 0 {
                        return Err("key fields cannot be empty".to_owned());
                    }
                    key = Key { partition: fields, sort: key.sort };
                },
                Meta::Sk(fields) => {
                    if fields.len() == 0 {
                        return Err("key fields cannot be empty".to_owned());
                    }
                    key = Key { partition: key.partition, sort: fields };
                },
                Meta::Index(inner) => {
                    match Index::parse(inner) {
                        Ok(index) => {
                            let ghost prev = indexes@;
                            indexes.push(index);
                            assert(indexes@.map_values(|i: Index| i@) =~= prev.map_values(
                                |i: Index| i@,
                            ).push(index@));
                        },
                        Err(e) => {
                            return Err(e);
                        },
                    }
                },
                Meta::Unknown => {
                    return Err("expected name, pk(...), sk(...), or index(...)".to_owned());
                },
                Meta::Malformed(message) => {
                    return Err(message);
                },
            }
        }
        assert(stack@.reverse().map_values(|m: Meta| m@) =~= Seq::<MetaView>::empty());
        if key.partition.len() == 0 {
            return Err("schema requires pk(...)".to_owned());
        }
        Ok(Schema { name, key, indexes })
    }

    /// The name the model is displayed as in error messages.
    pub fn name(&self, ident: &str) -> (r: String)
        ensures
            r@ == display_name(self@.name, ident@),
    {
        match &self.name {
            Some(name) => name.clone(),
            None => {
                let cs = chars_of(ident);
                let mut suffix: Vec<char> = Vec::new();
                suffix.push('T');
                suffix.push('a');
                suffix.push('b');
                suffix.push('l');
                suffix.push('e');
                proof {
                    reveal_strlit("Table");
                    assert(suffix@ =~= "Table"@);
                }
                if ends_with(&cs, &suffix) {
                    string_of(&cs, cs.len() - 5)
                } else {
                    ident.to_owned()
                }
            },
        }
    }
}

/// The item lists of the `index(…)` items among `items`, in order.
pub open spec fn declared_indexes(items: Seq<MetaView>) -> Seq<Seq<IndexMetaView>>
    decreases items.len(),
{
    if items.len() == 0 {
        Seq::empty()
    } else {
        match items[0] {
            MetaView::Index(inner) => seq![inner] + declared_indexes(items.drop_first()),
            _ => declared_indexes(items.drop_first()),
        }
    }
}

/// Reading items keeps every index read before and adds one index per
/// `index(…)` item, in order, each the index its items declare.
pub proof fn law_reading_keeps_every_index(s: SchemaView, items: Seq<MetaView>)
    ensures
        schema_run(s, items) matches Ok(t) ==> {
            &&& t.indexes.len() == s.indexes.len() + declared_indexes(items).len()
            &&& forall|i: int| 0 <= i < s.indexes.len() ==> t.indexes[i] == #[trigger] s.indexes[i]
            &&& forall|j: int|
                0 <= j < declared_indexes(items).len() ==> parse_index(
                    #[trigger] declared_indexes(items)[j],
                ) == Ok::<IndexView, Seq<char>>(t.indexes[s.indexes.len() + j])
        },
    decreases items.len(),
{
    if items.len() > 0 {
        let rest = items.drop_first();
        if let Ok(next) = schema_step(s, items[0]) {
            law_reading_keeps_every_index(next, rest);
            if let Ok(t) = schema_run(s, items) {
                assert(schema_run(next, rest) == Ok::<SchemaView, Seq<char>>(t));
                match items[0] {
                    MetaView::Index(inner) => {
                        let d = declared_indexes(items);
                        assert(d == seq![inner] + declared_indexes(rest));
                        assert(parse_index(inner) is Ok);
                        assert(next.indexes == s.indexes.push(parse_index(inner)->Ok_0));
                        let n = s.indexes.len();
                        assert(t.indexes[n as int] == next.indexes[n as int]);
                        assert forall|i: int| 0 <= i < n implies t.indexes[i]
                            == #[trigger] s.indexes[i] by {
                            assert(t.indexes[i] == next.indexes[i]);
                        }
                        assert forall|j: int| 0 <= j < d.len() implies parse_index(#[trigger] d[j])
                            == Ok::<IndexView, Seq<char>>(t.indexes[n + j]) by {
                            if j > 0 {
                                assert(d[j] == declared_indexes(rest)[j - 1]);
                                assert(n + j == next.indexes.len() + (j - 1));
                            } else {
                                assert(d[0] == inner);
                            }
                        }
                    },
                    _ => {
                        assert(next.indexes == s.indexes);
                    },
                }
            }
        }
    }
}

/// A declaration that reads keeps every declared index, in order: one index
/// per `index(…)` item of its attribute.
pub proof fn law_schema_keeps_every_declared_index(attrs: Seq<AttributeView>)
    ensures
        parse_schema(attrs) matches Ok(sch) ==> attribute_items(entity_attributes(attrs)[0]) matches Ok(
            items,
        ) && {
            &&& sch.indexes.len() == declared_indexes(items).len()
            &&& forall|j: int|
                0 <= j < declared_indexes(items).len() ==> parse_index(
                    #[trigger] declared_indexes(items)[j],
                ) == Ok::<IndexView, Seq<char>>(sch.indexes[j])
        },
{
    let entity = entity_attributes(attrs);
    if entity.len() == 1 {
        if let Ok(items) = attribute_items(entity[0]) {
            let start = SchemaView { name: None, key: empty_key(), indexes: Seq::empty() };
            law_reading_keeps_every_index(start, items);
        }
    }
}

/// Key attribute names follow composition: once the partition key or the
/// sort key has more than one field, the synthetic names `pk` and `sk` are
/// used; otherwise each key is named by its field's name in lowerCamelCase;
/// and a key with no sort fields has no sort name.
pub proof fn law_key_names_follow_composition(key: KeyView)
    requires
        key.partition.len() > 0,
    ensures
        key.partition.len() > 1 || key.sort.len() > 1 ==> partition_name(key) == "pk"@,
        (key.partition.len() > 1 || key.sort.len() > 1) && key.sort.len() > 0 ==> sort_name(key)
            == Some("sk"@),
        key.partition.len() == 1 && key.sort.len() <= 1 ==> partition_name(key)
            == lower_camel_case(key.partition[0].last()),
        key.partition.len() == 1 && key.sort.len() == 1 ==> sort_name(key) == Some(
            lower_camel_case(key.sort[0].last()),
        ),
        key.sort.len() == 0 <==> sort_name(key) is None,
{
}

} // verus!
