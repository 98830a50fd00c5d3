//! DynamoDB expressions with their placeholder bindings, shared by the
//! conditional-write and atomic-write builders.

use crate::attr::{self, AttributeValue};
use crate::dict::{distinct_keys, entry_map, lemma_entry_map_contains, lemma_entry_map_value, StrMap};
use vstd::prelude::*;

verus! {

/// What a set of bindings stands for: the expression text, the attribute
/// names behind `#…` placeholders and the values behind `:…` placeholders.
pub struct BindingsView {
    pub statement: Seq<char>,
    pub names: Map<Seq<char>, Seq<char>>,
    pub values: Map<Seq<char>, AttributeValue>,
}

/// The views of the strings a map holds.
pub open spec fn text_map(m: Map<Seq<char>, String>) -> Map<Seq<char>, Seq<char>> {
    m.map_values(|s: String| s@)
}

/// An expression statement with its placeholder bindings.
#[derive(Debug)]
pub struct Bindings {
    pub statement: String,
    pub names: StrMap<String>,
    pub values: StrMap<AttributeValue>,
}

impl View for Bindings {
    type V = BindingsView;

    open spec fn view(&self) -> BindingsView {
        BindingsView {
            statement: self.statement@,
            names: text_map(self.names@),
            values: self.values@,
        }
    }
}

/// The view of an optional string.
pub open spec fn opt_text(o: Option<String>) -> Option<Seq<char>> {
    match o {
        Some(s) => Some(s@),
        None => None,
    }
}

/// The report of a name placeholder bound by both an update and its
/// condition.
pub open spec fn name_collision_text(placeholder: Seq<char>) -> Seq<char> {
    "expression name placeholder "@ + placeholder + " is bound by both the update and condition"@
}

/// The report of a value placeholder bound by both an update and its
/// condition.
pub open spec fn value_collision_text(placeholder: Seq<char>) -> Seq<char> {
    "expression value placeholder "@ + placeholder
        + " is bound by both the update and condition"@
}

/// Whether two binding sets share a name placeholder.
pub open spec fn names_collide(a: BindingsView, b: BindingsView) -> bool {
    exists|p: Seq<char>| a.names.contains_key(p) && b.names.contains_key(p)
}

/// Whether two binding sets share a value placeholder.
pub open spec fn values_collide(a: BindingsView, b: BindingsView) -> bool {
    exists|p: Seq<char>| a.values.contains_key(p) && b.values.contains_key(p)
}

/// What a collision check between `update` and `condition` may report:
/// nothing when they share no placeholder; otherwise a shared name
/// placeholder if there is one, else a shared value placeholder.
pub open spec fn collision_report(
    update: BindingsView,
    condition: BindingsView,
    report: Option<Seq<char>>,
) -> bool {
    if names_collide(update, condition) {
        exists|p: Seq<char>|
            update.names.contains_key(p) && condition.names.contains_key(p) && report == Some(
                name_collision_text(p),
            )
    } else if values_collide(update, condition) {
        exists|p: Seq<char>|
            update.values.contains_key(p) && condition.values.contains_key(p) && report == Some(
                value_collision_text(p),
            )
    } else {
        report is None
    }
}

/// The first key of `candidates` that `held` also holds.
fn shared_key<V, W>(held: &StrMap<V>, candidates: &StrMap<W>) -> (r: Option<String>)
    ensures
        match r {
            Some(p) => held@.contains_key(p@) && candidates@.contains_key(p@),
            None => forall|p: Seq<char>|
                !(held@.contains_key(p) && candidates@.contains_key(p)),
        },
{
    let entries = candidates.entries();
    let mut i: usize = 0;
    while i < entries.len()
        invariant
            i <= entries@.len(),
            distinct_keys(entries@),
            entry_map(entries@) == candidates@,
            forall|j: int| 0 <= j < i ==> !held@.contains_key(#[trigger] entries@[j].0@),
        decreases entries.len() - i,
    {
        if held.contains_key(entries[i].0.as_str()) {
            proof {
                lemma_entry_map_value(entries@, i as int);
            }
            return Some(entries[i].0.clone());
        }
        i = i + 1;
    }
    proof {
        assert forall|p: Seq<char>| !(held@.contains_key(p) && candidates@.contains_key(p)) by {
            lemma_entry_map_contains(entries@, p);
        }
    }
    None
}

/// Builds the text `head` + `middle` + `tail`.
fn surround(head: &str, middle: &str, tail: &str) -> (r: String)
    ensures
        r@ == head@ + middle@ + tail@,
{
    let mut r = head.to_owned();
    r.append(middle);
    r.append(tail);
    r
}

impl Bindings {
    /// Reports a placeholder that both `self` (an update) and `condition`
    /// bind: a name placeholder takes precedence over a value placeholder.
    pub fn collision(&self, condition: &Self) -> (r: Option<String>)
        ensures
            collision_report(self@, condition@, opt_text(r)),
    {
        match shared_key(&self.names, &condition.names) {
            Some(p) => {
                let r = surround(
                    "expression name placeholder ",
                    p.as_str(),
                    " is bound by both the update and condition",
                );
                proof {
                    assert(self@.names.dom() =~= self.names@.dom());
                    assert(condition@.names.dom() =~= condition.names@.dom());
                    assert(self@.names.contains_key(p@) && condition@.names.contains_key(p@));
                    assert(opt_text(Some(r)) == Some(name_collision_text(p@)));
                }
                Some(r)
            },
            None => {
                proof {
                    assert(self@.names.dom() =~= self.names@.dom());
                    assert(condition@.names.dom() =~= condition.names@.dom());
                    assert(!names_collide(self@, condition@));
                }
                match shared_key(&self.values, &condition.values) {
                    Some(p) => {
                        let r = surround(
                            "expression value placeholder ",
                            p.as_str(),
                            " is bound by both the update and condition",
                        );
                        assert(self@.values.contains_key(p@) && condition@.values.contains_key(p@));
                        assert(opt_text(Some(r)) == Some(value_collision_text(p@)));
                        Some(r)
                    },
                    None => None,
                }
            },
        }
    }
}

/// A DynamoDB expression together with its placeholder bindings.
#[derive(Debug)]
pub struct Expression {
    bindings: Bindings,
}

impl View for Expression {
    type V = BindingsView;

    closed spec fn view(&self) -> BindingsView {
        self.bindings@
    }
}

impl Expression {
    /// Creates an expression with no bindings.
    pub fn new(statement: &str) -> (e: Self)
        ensures
            e@.statement == statement@,
            e@.names == Map::<Seq<char>, Seq<char>>::empty(),
            e@.values == Map::<Seq<char>, AttributeValue>::empty(),
    {
        let e = Expression {
            bindings: Bindings {
                statement: statement.to_owned(),
                names: StrMap::new(),
                values: StrMap::new(),
            },
        };
        assert(e@.names =~= Map::<Seq<char>, Seq<char>>::empty());
        e
    }

    /// Binds an attribute name placeholder (`#…`).
    pub fn name(self, placeholder: &str, name: &str) -> (e: Self)
        ensures
            e@.statement == self@.statement,
            e@.names == self@.names.insert(placeholder@, name@),
            e@.values == self@.values,
    {
        let Expression { bindings } = self;
        let Bindings { statement, mut names, values } = bindings;
        names.insert(placeholder.to_owned(), name.to_owned());
        let e = Expression { bindings: Bindings { statement, names, values } };
        assert(e@.names =~= self@.names.insert(placeholder@, name@));
        e
    }

    /// Binds an arbitrary attribute value placeholder (`:…`).
    pub fn value(self, placeholder: &str, value: AttributeValue) -> (e: Self)
        ensures
            e@.statement == self@.statement,
            e@.names == self@.names,
            e@.values == self@.values.insert(placeholder@, value),
    {
        let Expression { bindings } = self;
        let Bindings { statement, names, mut values } = bindings;
        values.insert(placeholder.to_owned(), value);
        Expression { bindings: Bindings { statement, names, values } }
    }

    /// Binds a string value placeholder (`:…`).
    pub fn string(self, placeholder: &str, value: &str) -> (e: Self)
        ensures
            e@.statement == self@.statement,
            e@.names == self@.names,
            e@.values.dom() == self@.values.dom().insert(placeholder@),
            forall|k: Seq<char>| #[trigger]
                e@.values.contains_key(k) && k != placeholder@ ==> e@.values[k]
                    == self@.values[k],
            e@.values[placeholder@] matches AttributeValue::S(text) && text@ == value@,
    {
        let v = attr::s(value);
        let e = self.value(placeholder, v);
        assert(e@.values.dom() =~= self@.values.dom().insert(placeholder@));
        e
    }

    /// Binds a number value placeholder (`:…`) to the displayed text of
    /// `value`.
    pub fn number<T: std::fmt::Display>(self, placeholder: &str, value: T) -> (e: Self)
        ensures
            e@.statement == self@.statement,
            e@.names == self@.names,
            e@.values.dom() == self@.values.dom().insert(placeholder@),
            forall|k: Seq<char>| #[trigger]
                e@.values.contains_key(k) && k != placeholder@ ==> e@.values[k]
                    == self@.values[k],
            e@.values[placeholder@] matches AttributeValue::N(text)
                && vstd::string::to_string_from_display_ensures::<T>(&value, text),
    {
        let v = attr::n(value);
        let e = self.value(placeholder, v);
        assert(e@.values.dom() =~= self@.values.dom().insert(placeholder@));
        e
    }

    /// Binds a boolean value placeholder (`:…`).
    pub fn boolean(self, placeholder: &str, value: bool) -> (e: Self)
        ensures
            e@.statement == self@.statement,
            e@.names == self@.names,
            e@.values == self@.values.insert(placeholder@, AttributeValue::Bool(value)),
    {
        self.value(placeholder, attr::boolean(value))
    }

    /// The bindings of this expression.
    pub fn bindings(&self) -> (b: &Bindings)
        ensures
            b@ == self@,
    {
        &self.bindings
    }

    /// Gives up the bindings of this expression.
    pub fn into_bindings(self) -> (b: Bindings)
        ensures
            b@ == self@,
    {
        self.bindings
    }
}

} // verus!
