//! What a schema derivation generates from a model's declaration: the key
//! attribute names, the bindings that destructure a key, the paths read by
//! `primary`, one constant per index and the `prefix` helper's arguments.
//! The glue that writes tokens renders exactly this plan.

use crate::schema::{
    attribute_items, declared_indexes, entity_attributes, law_schema_keeps_every_declared_index,
    parse_index,
    display_name, fields_view, keys_named, lemma_parsed_keys_named, parse_schema, partition_name,
    schema_result, shouty_snake_case, sort_name, to_shouty_snake, Attribute, Field, Index,
    AttributeView, IndexView, Key, KeyView, Schema, SchemaView,
};
use crate::text::{decimal, usize_text, views};
use crate::write::text_view;
use vstd::prelude::*;

verus! {

/// What a derivation is applied to.
pub enum Shape {
    /// A struct with named fields.
    NamedStruct,
    /// A tuple or unit struct.
    OtherStruct,
    /// An enum or a union.
    NotStruct,
}

/// Why a derivation does not apply to `shape`, if it does not.
pub open spec fn shape_error(shape: Shape) -> Option<Seq<char>> {
    match shape {
        Shape::NamedStruct => None,
        Shape::OtherStruct => Some("Schema requires named fields"@),
        Shape::NotStruct => Some("Schema can only be derived for structs"@),
    }
}

/// Checks that the derivation applies: only to structs with named fields.
pub fn validate(shape: &Shape) -> (r: Result<(), String>)
    ensures
        match r {
            Ok(_) => shape_error(*shape) is None,
            Err(e) => shape_error(*shape) == Some(e@),
        },
{
    match shape {
        Shape::NamedStruct => Ok(()),
        Shape::OtherStruct => Err("Schema requires named fields".to_owned()),
        Shape::NotStruct => Err("Schema can only be derived for structs".to_owned()),
    }
}

/// The name of the binding that holds the `i`-th key member.
pub open spec fn binding_name(i: nat) -> Seq<char> {
    "__key_"@ + decimal(i)
}

/// The bindings of `n` key members, in order.
pub open spec fn binding_names(n: nat) -> Seq<Seq<char>> {
    Seq::new(n, |i: int| binding_name(i as nat))
}

/// The fields of a key in the order its members are listed: the partition
/// fields, then the sort fields.
pub open spec fn key_fields(key: KeyView) -> Seq<Seq<Seq<char>>> {
    key.partition + key.sort
}

/// The primary-key plan of a derivation.
pub struct Primary {
    /// The partition key attribute name.
    pub partition: String,
    /// The sort key attribute name, when there is a sort key.
    pub sort: Option<String>,
    /// One binding per key member, in order.
    pub bindings: Vec<String>,
    /// How many of the bindings make up the partition key; the rest make
    /// up the sort key.
    pub partition_bindings: usize,
    /// The path of each key member's field, in order.
    pub fields: Vec<Vec<String>>,
}

/// What a primary-key plan stands for.
pub struct PrimaryView {
    pub partition: Seq<char>,
    pub sort: Option<Seq<char>>,
    pub bindings: Seq<Seq<char>>,
    pub partition_bindings: nat,
    pub fields: Seq<Seq<Seq<char>>>,
}

impl View for Primary {
    type V = PrimaryView;

    open spec fn view(&self) -> PrimaryView {
        PrimaryView {
            partition: self.partition@,
            sort: text_view(self.sort),
            bindings: views(self.bindings@),
            partition_bindings: self.partition_bindings as nat,
            fields: self.fields@.map_values(|f: Vec<String>| views(f@)),
        }
    }
}

/// The primary-key plan of `key`.
pub open spec fn primary_of(key: KeyView) -> PrimaryView {
    PrimaryView {
        partition: partition_name(key),
        sort: sort_name(key),
        bindings: binding_names(key_fields(key).len()),
        partition_bindings: key.partition.len(),
        fields: key_fields(key),
    }
}

/// A copy of a list of texts.
fn copy_texts(v: &Vec<String>) -> (r: Vec<String>)
    ensures
        views(r@) == views(v@),
{
    let mut r: Vec<String> = Vec::new();
    let mut i: usize = 0;
    while i < v.len()
        invariant
            i <= v@.len(),
            views(r@) == views(v@).take(i as int),
        decreases v.len() - i,
    {
        let ghost prev = r@;
        r.push(v[i].clone());
        assert(views(r@) =~= views(prev).push(v@[i as int]@));
        assert(views(v@).take(i + 1) =~= views(v@).take(i as int).push(v@[i as int]@));
        i = i + 1;
    }
    assert(views(v@).take(i as int) =~= views(v@));
    r
}

/// The paths of `fields`, appended to `out`.
fn push_paths(fields: &Vec<Field>, out: &mut Vec<Vec<String>>)
    ensures
        final(out)@.map_values(|f: Vec<String>| views(f@)) == old(out)@.map_values(
            |f: Vec<String>| views(f@),
        ) + fields_view(fields@),
{
    let ghost start = out@.map_values(|f: Vec<String>| views(f@));
    let mut i: usize = 0;
    while i < fields.len()
        invariant
            i <= fields@.len(),
            out@.map_values(|f: Vec<String>| views(f@)) == start + fields_view(fields@).take(
                i as int,
            ),
        decreases fields.len() - i,
    {
        let path = copy_texts(fields[i].segments());
        let ghost prev = out@;
        out.push(path);
        assert(out@.map_values(|f: Vec<String>| views(f@)) =~= prev.map_values(
            |f: Vec<String>| views(f@),
        ).push(fields@[i as int]@));
        assert(fields_view(fields@).take(i + 1) =~= fields_view(fields@).take(i as int).push(
            fields@[i as int]@,
        ));
        i = i + 1;
    }
    assert(fields_view(fields@).take(i as int) =~= fields_view(fields@));
}

/// Plans the primary key of a model: the key attribute names, a binding
/// `__key_{i}` per key member, and the field each member is read from.
pub fn primary(key: &Key) -> (p: Primary)
    requires
        key@.partition.len() > 0,
    ensures
        p@ == primary_of(key@),
{
    let names = key.names();
    let mut fields: Vec<Vec<String>> = Vec::new();
    assert(fields@.map_values(|f: Vec<String>| views(f@)) =~= Seq::<Seq<Seq<char>>>::empty());
    push_paths(&key.partition, &mut fields);
    push_paths(&key.sort, &mut fields);
    assert(fields@.map_values(|f: Vec<String>| views(f@)) =~= key_fields(key@));
    let total = fields.len();
    let mut bindings: Vec<String> = Vec::new();
    let mut i: usize = 0;
    while i < total
        invariant
            i <= total,
            views(bindings@) == binding_names(i as nat),
        decreases total - i,
    {
        let number = usize_text(i);
        let mut binding = "__key_".to_owned();
        binding.append(number.as_str());
        assert(binding@ == binding_name(i as nat));
        let ghost prev = bindings@;
        bindings.push(binding);
        assert(views(bindings@) =~= views(prev).push(binding_name(i as nat)));
        assert(views(bindings@) =~= binding_names((i + 1) as nat));
        i = i + 1;
    }
    let p = Primary {
        partition: names.partition,
        sort: names.sort,
        bindings,
        partition_bindings: key.partition.len(),
        fields,
    };
    assert(p@.sort == sort_name(key@));
    p
}

/// The arguments of the `prefix` helper of a sort key: the names of all
/// but its last field, for a composite sort key only.
pub open spec fn prefix_of(sort: Seq<Seq<Seq<char>>>) -> Option<Seq<Seq<char>>> {
    if sort.len() < 2 {
        None
    } else {
        Some(Seq::new((sort.len() - 1) as nat, |i: int| sort[i].last()))
    }
}

/// Plans the `prefix` helper of a sort key: `None` when the sort key has
/// fewer than two fields, else the names of all its fields but the last.
pub fn prefix(sort: &Vec<Field>) -> (r: Option<Vec<String>>)
    ensures
        match r {
            None => prefix_of(fields_view(sort@)) is None,
            Some(a) => prefix_of(fields_view(sort@)) == Some(views(a@)),
        },
{
    if sort.len() < 2 {
        return None;
    }
    let count = sort.len() - 1;
    let ghost want = Seq::new(count as nat, |i: int| fields_view(sort@)[i].last());
    let mut arguments: Vec<String> = Vec::new();
    let mut i: usize = 0;
    while i < count
        invariant
            count == sort@.len() - 1,
            i <= count,
            want == Seq::new(count as nat, |i: int| fields_view(sort@)[i].last()),
            views(arguments@) == want.take(i as int),
        decreases count - i,
    {
        let name = sort[i].name().clone();
        let ghost prev = arguments@;
        arguments.push(name);
        assert(views(arguments@) =~= views(prev).push(sort@[i as int]@.last()));
        assert(want.take(i + 1) =~= want.take(i as int).push(want[i as int]));
        i = i + 1;
    }
    assert(want.take(i as int) =~= want);
    Some(arguments)
}

/// The constant a derivation emits for an index.
pub struct IndexConstant {
    /// The constant's name: the index name in SHOUTY_SNAKE_CASE.
    pub constant: String,
    /// The index name.
    pub name: String,
    /// The index's partition key attribute name.
    pub partition: String,
    /// The index's sort key attribute name, when it has a sort key.
    pub sort: Option<String>,
}

/// What an index constant stands for.
pub struct IndexConstantView {
    pub constant: Seq<char>,
    pub name: Seq<char>,
    pub partition: Seq<char>,
    pub sort: Option<Seq<char>>,
}

impl View for IndexConstant {
    type V = IndexConstantView;

    open spec fn view(&self) -> IndexConstantView {
        IndexConstantView {
            constant: self.constant@,
            name: self.name@,
            partition: self.partition@,
            sort: text_view(self.sort),
        }
    }
}

/// The constant of `index`.
pub open spec fn constant_of(index: IndexView) -> IndexConstantView {
    IndexConstantView {
        constant: shouty_snake_case(index.name),
        name: index.name,
        partition: partition_name(index.key),
        sort: sort_name(index.key),
    }
}

/// Plans the constant of an index: named after the index in
/// SHOUTY_SNAKE_CASE (`byId` → `BY_ID`), with its key attribute names.
pub fn constant(index: &Index) -> (c: IndexConstant)
    requires
        index@.key.partition.len() > 0,
    ensures
        c@ == constant_of(index@),
{
    let names = index.key.names();
    let c = IndexConstant {
        constant: to_shouty_snake(index.name.as_str()),
        name: index.name.clone(),
        partition: names.partition,
        sort: names.sort,
    };
    assert(c@.sort == sort_name(index@.key));
    c
}

/// The whole plan of a derivation.
pub struct Expansion {
    /// The display name of the model.
    pub name: String,
    /// The primary-key plan.
    pub primary: Primary,
    /// One constant per declared index, in order.
    pub indexes: Vec<IndexConstant>,
    /// The `prefix` helper's arguments, for a composite sort key.
    pub prefix: Option<Vec<String>>,
}

/// What a derivation plan stands for.
pub struct ExpansionView {
    pub name: Seq<char>,
    pub primary: PrimaryView,
    pub indexes: Seq<IndexConstantView>,
    pub prefix: Option<Seq<Seq<char>>>,
}

impl View for Expansion {
    type V = ExpansionView;

    open spec fn view(&self) -> ExpansionView {
        ExpansionView {
            name: self.name@,
            primary: self.primary@,
            indexes: self.indexes@.map_values(|c: IndexConstant| c@),
            prefix: match self.prefix {
                Some(a) => Some(views(a@)),
                None => None,
            },
        }
    }
}

/// The plan derived for the model `ident` from its declaration `s`.
pub open spec fn expansion_of(ident: Seq<char>, s: SchemaView) -> ExpansionView {
    ExpansionView {
        name: display_name(s.name, ident),
        primary: primary_of(s.key),
        indexes: s.indexes.map_values(|i: IndexView| constant_of(i)),
        prefix: prefix_of(s.key.sort),
    }
}

/// Plans what a derivation generates for the model `ident` declared by
/// `schema`.
pub fn expand(ident: &str, schema: &Schema) -> (x: Expansion)
    requires
        keys_named(schema@),
    ensures
        x@ == expansion_of(ident@, schema@),
{
    let name = schema.name(ident);
    let primary = primary(&schema.key);
    let mut indexes: Vec<IndexConstant> = Vec::new();
    let mut i: usize = 0;
    while i < schema.indexes.len()
        invariant
            i <= schema.indexes@.len(),
            keys_named(schema@),
            indexes@.map_values(|c: IndexConstant| c@) == schema@.indexes.map_values(
                |i: IndexView| constant_of(i),
            ).take(i as int),
        decreases schema.indexes.len() - i,
    {
        assert(schema@.indexes[i as int] == schema.indexes@[i as int]@);
        let c = constant(&schema.indexes[i]);
        let ghost prev = indexes@;
        indexes.push(c);
        assert(indexes@.map_values(|c: IndexConstant| c@) =~= prev.map_values(
            |c: IndexConstant| c@,
        ).push(c@));
        i = i + 1;
    }
    assert(schema@.indexes.map_values(|i: IndexView| constant_of(i)).take(i as int)
        =~= schema@.indexes.map_values(|i: IndexView| constant_of(i)));
    let prefix = prefix(&schema.key.sort);
    Expansion { name, primary, indexes, prefix }
}

/// The outcome of deriving a model: its shape checked, then its
/// declaration read, then the plan.
pub open spec fn derivation(shape: Shape, ident: Seq<char>, attrs: Seq<AttributeView>) -> Result<
    ExpansionView,
    Seq<char>,
> {
    match shape_error(shape) {
        Some(e) => Err(e),
        None => match parse_schema(attrs) {
            Err(e) => Err(e),
            Ok(s) => Ok(expansion_of(ident, s)),
        },
    }
}

/// The view of a derivation's outcome.
pub open spec fn derive_result(r: Result<Expansion, String>) -> Result<ExpansionView, Seq<char>> {
    match r {
        Ok(x) => Ok(x@),
        Err(e) => Err(e@),
    }
}

/// Derives the plan for the model `ident` of shape `shape` with the
/// attributes `attributes`.
pub fn derive(shape: &Shape, ident: &str, attributes: Vec<Attribute>) -> (r: Result<
    Expansion,
    String,
>)
    ensures
        derive_result(r) == derivation(*shape, ident@, attributes@.map_values(|a: Attribute| a@)),
{
    validate(shape)?;
    let ghost attrs = attributes@.map_values(|a: Attribute| a@);
    let schema = Schema::parse(attributes)?;
    proof {
        lemma_parsed_keys_named(attrs);
    }
    Ok(expand(ident, &schema))
}

/// A derivation emits one index constant per `index(…)` item of the
/// model's attribute, in order, each the constant of the index that item
/// declares.
pub proof fn law_derivation_emits_every_index(
    shape: Shape,
    ident: Seq<char>,
    attrs: Seq<AttributeView>,
)
    ensures
        derivation(shape, ident, attrs) matches Ok(x) ==> attribute_items(
            entity_attributes(attrs)[0],
        ) matches Ok(items) && {
            &&& x.indexes.len() == declared_indexes(items).len()
            &&& forall|j: int|
                0 <= j < declared_indexes(items).len() ==> (parse_index(
                    #[trigger] declared_indexes(items)[j],
                ) matches Ok(index) && x.indexes[j] == constant_of(index))
        },
{
    law_schema_keeps_every_declared_index(attrs);
}

} // verus!
