//! The grammar of the `#[entity(…)]` attribute, read from its token trees.
//!
//! The arguments are a comma-separated list of nested items, each a path
//! followed by its own arguments: `name = "…"`, `pk(field, …)`,
//! `sk(field, …)` or `index(item, …)`, where a field is a dotted path
//! `a.b.c`. A trailing comma is allowed. Reading stops at the first syntax
//! error, which is reported with the message the attribute parser gives.

use crate::schema::{fields_view, Field, IndexMeta, IndexMetaView, Meta, MetaView};
use crate::text::views;
use vstd::prelude::*;

verus! {

/// The delimiter of a token group.
#[derive(Debug)]
pub enum Delimiter {
    /// `( … )`
    Parenthesis,
    /// `{ … }`
    Brace,
    /// `[ … ]`
    Bracket,
    /// A group without visible delimiters.
    Invisible,
}

/// A token tree of attribute arguments.
#[derive(Debug)]
pub enum Token {
    /// An identifier or keyword, raw identifiers with their `r#`.
    Ident(String),
    /// A punctuation character, and whether it is joined to the next one.
    Punct(char, bool),
    /// A string literal, by its value.
    Str(String),
    /// Any other literal, by its text.
    Literal(String),
    /// A delimited group of tokens.
    Group(Delimiter, Vec<Token>),
}

/// The words that are not identifiers.
pub open spec fn keywords() -> Seq<Seq<char>> {
    seq![
        "_"@, "abstract"@, "as"@, "async"@, "await"@, "become"@, "box"@, "break"@, "const"@,
        "continue"@, "crate"@, "do"@, "dyn"@, "else"@, "enum"@, "extern"@, "false"@, "final"@,
        "fn"@, "for"@, "if"@, "impl"@, "in"@, "let"@, "loop"@, "macro"@, "match"@, "mod"@,
        "move"@, "mut"@, "override"@, "priv"@, "pub"@, "ref"@, "return"@, "Self"@, "self"@,
        "static"@, "struct"@, "super"@, "trait"@, "true"@, "try"@, "type"@, "typeof"@,
        "unsafe"@, "unsized"@, "use"@, "virtual"@, "where"@, "while"@, "yield"@,
    ]
}

/// Whether the token at `i` is the punctuation `c`.
pub open spec fn punct_at(ts: Seq<Token>, i: int, c: char) -> bool {
    0 <= i < ts.len() && (ts[i] matches Token::Punct(d, _) && d == c)
}

/// Whether a path separator `::` starts at `i`.
pub open spec fn path_sep_at(ts: Seq<Token>, i: int) -> bool {
    &&& 0 <= i
    &&& i + 1 < ts.len()
    &&& ts[i] matches Token::Punct(c, joint) && c == ':' && joint
    &&& ts[i + 1] matches Token::Punct(d, _) && d == ':'
}

/// The contents of the parenthesized group at `i`, if there is one.
pub open spec fn parens_at(ts: Seq<Token>, i: int) -> Option<Seq<Token>> {
    if 0 <= i < ts.len() && (ts[i] matches Token::Group(Delimiter::Parenthesis, _)) {
        match ts[i] {
            Token::Group(_, inner) => Some(inner@),
            _ => None,
        }
    } else {
        None
    }
}

/// The identifier at `i` (not a keyword), or why there is none.
pub open spec fn ident_at(ts: Seq<Token>, i: int) -> Result<Seq<char>, Seq<char>> {
    if i < 0 || i >= ts.len() {
        Err("unexpected end of input, expected identifier"@)
    } else {
        match ts[i] {
            Token::Ident(s) => if keywords().contains(s@) {
                Err("expected identifier, found keyword `"@ + s@ + "`"@)
            } else {
                Ok(s@)
            },
            _ => Err("expected identifier"@),
        }
    }
}

/// Reads `.segment` continuations of a field path from `i`.
pub open spec fn dotted_from(ts: Seq<Token>, i: int, segs: Seq<Seq<char>>) -> Result<
    (Seq<Seq<char>>, int),
    Seq<char>,
>
    decreases ts.len() - i,
{
    if punct_at(ts, i, '.') {
        match ident_at(ts, i + 1) {
            Err(e) => Err(e),
            Ok(s) => dotted_from(ts, i + 2, segs.push(s)),
        }
    } else {
        Ok((segs, i))
    }
}

/// Reads a field path `a.b.c` at `i`: its segments and where it ends.
pub open spec fn field_at(ts: Seq<Token>, i: int) -> Result<(Seq<Seq<char>>, int), Seq<char>> {
    match ident_at(ts, i) {
        Err(e) => Err(e),
        Ok(s) => dotted_from(ts, i + 1, seq![s]),
    }
}

/// Reading continuations moves forward and keeps the segments read.
pub proof fn lemma_dotted_advances(ts: Seq<Token>, i: int, segs: Seq<Seq<char>>)
    requires
        0 <= i <= ts.len(),
    ensures
        dotted_from(ts, i, segs) matches Ok((f, j)) ==> i <= j <= ts.len() && f.len()
            >= segs.len(),
    decreases ts.len() - i,
{
    if punct_at(ts, i, '.') {
        if let Ok(s) = ident_at(ts, i + 1) {
            lemma_dotted_advances(ts, i + 2, segs.push(s));
        }
    }
}

/// Reads a comma-separated list of field paths from `i` to the end, a
/// trailing comma allowed.
pub open spec fn fields_from(ts: Seq<Token>, i: int, acc: Seq<Seq<Seq<char>>>) -> Result<
    Seq<Seq<Seq<char>>>,
    Seq<char>,
>
    decreases ts.len() - i,
{
    if i < 0 || i >= ts.len() {
        Ok(acc)
    } else {
        match field_at(ts, i) {
            Err(e) => Err(e),
            Ok((f, j)) => if j >= ts.len() {
                Ok(acc.push(f))
            } else if punct_at(ts, j, ',') {
                proof {
                    lemma_dotted_advances(ts, i + 1, seq![ident_at(ts, i)->Ok_0]);
                }
                fields_from(ts, j + 1, acc.push(f))
            } else {
                Err("expected `,`"@)
            },
        }
    }
}

/// The fields inside `pk(…)` or `sk(…)`.
pub open spec fn field_list(ts: Seq<Token>) -> Result<Seq<Seq<Seq<char>>>, Seq<char>> {
    fields_from(ts, 0, seq![])
}

/// Reads `::segment` continuations of an item path from `i`.
pub open spec fn colons_from(ts: Seq<Token>, i: int, segs: Seq<Seq<char>>) -> Result<
    (Seq<Seq<char>>, int),
    Seq<char>,
>
    decreases ts.len() - i,
{
    if path_sep_at(ts, i) {
        if i + 2 < ts.len() && (ts[i + 2] is Ident) {
            match ts[i + 2] {
                Token::Ident(s) => colons_from(ts, i + 3, segs.push(s@)),
                _ => Err("expected ident"@),
            }
        } else if i + 2 >= ts.len() {
            Err("unexpected end of input, expected ident"@)
        } else {
            Err("expected ident"@)
        }
    } else {
        Ok((segs, i))
    }
}

/// An item path: whether it starts with `::`, and its segments.
pub struct ItemPath {
    pub leading: bool,
    pub segments: Seq<Seq<char>>,
}

/// Whether `p` is the single word `word`.
pub open spec fn is_word(p: ItemPath, word: Seq<char>) -> bool {
    !p.leading && p.segments == seq![word]
}

/// Reads the path of a nested item at `i`: the path and where it ends.
pub open spec fn item_path_at(ts: Seq<Token>, i: int) -> Result<(ItemPath, int), Seq<char>> {
    let leading = path_sep_at(ts, i);
    let k = if leading {
        i + 2
    } else {
        i
    };
    if k < 0 || k >= ts.len() {
        Err("unexpected end of input, expected nested attribute"@)
    } else {
        match ts[k] {
            Token::Ident(s) => match colons_from(ts, k + 1, seq![s@]) {
                Err(e) => Err(e),
                Ok((segs, j)) => Ok((ItemPath { leading, segments: segs }, j)),
            },
            Token::Str(_) => Err("unexpected literal in nested attribute, expected ident"@),
            Token::Literal(_) => Err("unexpected literal in nested attribute, expected ident"@),
            _ => Err("unexpected token in nested attribute, expected ident"@),
        }
    }
}

/// Reading path continuations moves forward.
pub proof fn lemma_colons_advance(ts: Seq<Token>, i: int, segs: Seq<Seq<char>>)
    requires
        0 <= i <= ts.len(),
    ensures
        colons_from(ts, i, segs) matches Ok((_, j)) ==> i <= j <= ts.len(),
    decreases ts.len() - i,
{
    if path_sep_at(ts, i) && i + 2 < ts.len() {
        if let Token::Ident(s) = ts[i + 2] {
            lemma_colons_advance(ts, i + 3, segs.push(s@));
        }
    }
}

/// An item path read at `i` ends after `i`.
pub proof fn lemma_item_path_advances(ts: Seq<Token>, i: int)
    requires
        0 <= i <= ts.len(),
    ensures
        item_path_at(ts, i) matches Ok((_, j)) ==> i < j <= ts.len(),
{
    let k = if path_sep_at(ts, i) {
        i + 2
    } else {
        i
    };
    if 0 <= k < ts.len() {
        if let Token::Ident(s) = ts[k] {
            lemma_colons_advance(ts, k + 1, seq![s@]);
        }
    }
}

/// The error of a `name` item whose value is not a string literal.
pub open spec fn name_value_error(ts: Seq<Token>, j: int) -> Seq<char> {
    if j + 1 >= ts.len() {
        "unexpected end of input, expected string literal"@
    } else {
        "expected string literal"@
    }
}

/// The error of an item whose arguments are not parenthesized.
pub open spec fn parens_error(ts: Seq<Token>, j: int) -> Seq<char> {
    if j >= ts.len() {
        "unexpected end of input, expected parentheses"@
    } else {
        "expected parentheses"@
    }
}

/// The value of the string literal at `i`, if there is one.
pub open spec fn str_at(ts: Seq<Token>, i: int) -> Option<Seq<char>> {
    if 0 <= i < ts.len() && (ts[i] is Str) {
        match ts[i] {
            Token::Str(s) => Some(s@),
            _ => None,
        }
    } else {
        None
    }
}

/// Reads the arguments of an index item with path `p` from `j`: the item
/// and where reading goes on.
pub open spec fn index_item_at(ts: Seq<Token>, p: ItemPath, j: int) -> (IndexMetaView, int) {
    if is_word(p, "name"@) {
        if !punct_at(ts, j, '=') {
            (IndexMetaView::Malformed("expected `=`"@), j)
        } else {
            match str_at(ts, j + 1) {
                Some(s) => (IndexMetaView::Name(s), j + 2),
                None => (IndexMetaView::Malformed(name_value_error(ts, j)), j),
            }
        }
    } else if is_word(p, "pk"@) || is_word(p, "sk"@) {
        match parens_at(ts, j) {
            None => (IndexMetaView::Malformed(parens_error(ts, j)), j),
            Some(inner) => match field_list(inner) {
                Err(e) => (IndexMetaView::Malformed(e), j),
                Ok(fs) => (
                    if is_word(p, "pk"@) {
                        IndexMetaView::Pk(fs)
                    } else {
                        IndexMetaView::Sk(fs)
                    },
                    j + 1,
                ),
            },
        }
    } else {
        (IndexMetaView::Unknown, j)
    }
}

/// Reads the items of an index declaration from `i`, stopping after the
/// first syntax error.
pub open spec fn index_items_from(ts: Seq<Token>, i: int, acc: Seq<IndexMetaView>) -> Seq<
    IndexMetaView,
>
    decreases ts.len() - i,
{
    if i < 0 || i > ts.len() {
        acc
    } else {
        match item_path_at(ts, i) {
            Err(e) => acc.push(IndexMetaView::Malformed(e)),
            Ok((p, j)) => {
                let (item, k) = index_item_at(ts, p, j);
                if item is Malformed || k >= ts.len() {
                    acc.push(item)
                } else if punct_at(ts, k, ',') {
                    if k + 1 >= ts.len() {
                        acc.push(item)
                    } else {
                        proof {
                            lemma_item_path_advances(ts, i);
                        }
                        index_items_from(ts, k + 1, acc.push(item))
                    }
                } else {
                    acc.push(item).push(IndexMetaView::Malformed("expected `,`"@))
                }
            },
        }
    }
}

/// The items inside `index(…)`.
pub open spec fn index_items(ts: Seq<Token>) -> Seq<IndexMetaView> {
    index_items_from(ts, 0, seq![])
}

/// Reads the arguments of an attribute item with path `p` from `j`: the
/// item and where reading goes on.
pub open spec fn entity_item_at(ts: Seq<Token>, p: ItemPath, j: int) -> (MetaView, int) {
    if is_word(p, "name"@) {
        if !punct_at(ts, j, '=') {
            (MetaView::Malformed("expected `=`"@), j)
        } else {
            match str_at(ts, j + 1) {
                Some(s) => (MetaView::Name(s), j + 2),
                None => (MetaView::Malformed(name_value_error(ts, j)), j),
            }
        }
    } else if is_word(p, "pk"@) || is_word(p, "sk"@) {
        match parens_at(ts, j) {
            None => (MetaView::Malformed(parens_error(ts, j)), j),
            Some(inner) => match field_list(inner) {
                Err(e) => (MetaView::Malformed(e), j),
                Ok(fs) => (
                    if is_word(p, "pk"@) {
                        MetaView::Pk(fs)
                    } else {
                        MetaView::Sk(fs)
                    },
                    j + 1,
                ),
            },
        }
    } else if is_word(p, "index"@) {
        match parens_at(ts, j) {
            None => (MetaView::Malformed(parens_error(ts, j)), j),
            Some(inner) => (MetaView::Index(index_items(inner)), j + 1),
        }
    } else {
        (MetaView::Unknown, j)
    }
}

/// Reads the items of the attribute's arguments from `i`, stopping after
/// the first syntax error.
pub open spec fn entity_items_from(ts: Seq<Token>, i: int, acc: Seq<MetaView>) -> Seq<MetaView>
    decreases ts.len() - i,
{
    if i < 0 || i > ts.len() {
        acc
    } else {
        match item_path_at(ts, i) {
            Err(e) => acc.push(MetaView::Malformed(e)),
            Ok((p, j)) => {
                let (item, k) = entity_item_at(ts, p, j);
                if item is Malformed || k >= ts.len() {
                    acc.push(item)
                } else if punct_at(ts, k, ',') {
                    if k + 1 >= ts.len() {
                        acc.push(item)
                    } else {
                        proof {
                            lemma_item_path_advances(ts, i);
                        }
                        entity_items_from(ts, k + 1, acc.push(item))
                    }
                } else {
                    acc.push(item).push(MetaView::Malformed("expected `,`"@))
                }
            },
        }
    }
}

/// The items of the attribute's arguments `ts`.
pub open spec fn entity_items(ts: Seq<Token>) -> Seq<MetaView> {
    entity_items_from(ts, 0, seq![])
}

/// The view of a reading result.
pub open spec fn text_result(r: Result<String, String>) -> Result<Seq<char>, Seq<char>> {
    match r {
        Ok(s) => Ok(s@),
        Err(e) => Err(e@),
    }
}

/// The views of read items.
pub open spec fn metas_view(items: Seq<Meta>) -> Seq<MetaView> {
    items.map_values(|m: Meta| m@)
}

/// The views of read index items.
pub open spec fn index_metas_view(items: Seq<IndexMeta>) -> Seq<IndexMetaView> {
    items.map_values(|m: IndexMeta| m@)
}

/// Whether `word` is a keyword.
fn is_keyword(word: &String) -> (r: bool)
    ensures
        r == keywords().contains(word@),
{
    let words: Vec<&str> = vec![
        "_", "abstract", "as", "async", "await", "become", "box", "break", "const", "continue",
        "crate", "do", "dyn", "else", "enum", "extern", "false", "final", "fn", "for", "if",
        "impl", "in", "let", "loop", "macro", "match", "mod", "move", "mut", "override", "priv",
        "pub", "ref", "return", "Self", "self", "static", "struct", "super", "trait", "true",
        "try", "type", "typeof", "unsafe", "unsized", "use", "virtual", "where", "while", "yield",
    ];
    assert(words@.map_values(|w: &str| w@) =~= keywords());
    let mut i: usize = 0;
    while i < words.len()
        invariant
            i <= words@.len(),
            words@.map_values(|w: &str| w@) == keywords(),
            forall|j: int| 0 <= j < i ==> keywords()[j] != word@,
        decreases words.len() - i,
    {
        if words[i].to_owned() == *word {
            assert(keywords()[i as int] == word@);
            return true;
        }
        assert(keywords()[i as int] == words@[i as int]@);
        i = i + 1;
    }
    assert(!keywords().contains(word@)) by {
        if keywords().contains(word@) {
            let j = choose|j: int| 0 <= j < keywords().len() && keywords()[j] == word@;
            assert(keywords()[j] != word@);
        }
    }
    false
}

/// Whether the token at `i` is the punctuation `c`.
fn punct_is(ts: &Vec<Token>, i: usize, c: char) -> (r: bool)
    ensures
        r == punct_at(ts@, i as int, c),
{
    if i < ts.len() {
        match &ts[i] {
            Token::Punct(d, _) => *d == c,
            _ => false,
        }
    } else {
        false
    }
}

/// Whether a path separator `::` starts at `i`.
fn path_sep_is(ts: &Vec<Token>, i: usize) -> (r: bool)
    ensures
        r == path_sep_at(ts@, i as int),
{
    if i < ts.len() && ts.len() - i > 1 {
        let first = match &ts[i] {
            Token::Punct(c, joint) => *c == ':' && *joint,
            _ => false,
        };
        first && punct_is(ts, i + 1, ':')
    } else {
        false
    }
}

/// Reads the identifier at `i`.
fn read_ident(ts: &Vec<Token>, i: usize) -> (r: Result<String, String>)
    ensures
        text_result(r) == ident_at(ts@, i as int),
{
    if i >= ts.len() {
        return Err("unexpected end of input, expected identifier".to_owned());
    }
    match &ts[i] {
        Token::Ident(s) => {
            if is_keyword(s) {
                let mut e = "expected identifier, found keyword `".to_owned();
                e.append(s.as_str());
                e.append("`");
                Err(e)
            } else {
                Ok(s.clone())
            }
        },
        _ => Err("expected identifier".to_owned()),
    }
}

/// Reads the field path at `i`: the field and where it ends.
fn read_field(ts: &Vec<Token>, i: usize) -> (r: Result<(Field, usize), String>)
    requires
        i <= ts@.len(),
    ensures
        match (r, field_at(ts@, i as int)) {
            (Ok((f, j)), Ok((segs, k))) => f@ == segs && j == k,
            (Err(e), Err(m)) => e@ == m,
            _ => false,
        },
{
    let first = match read_ident(ts, i) {
        Ok(s) => s,
        Err(e) => return Err(e),
    };
    let n = ts.len();
    assert(i < n);
    let mut rest: Vec<String> = Vec::new();
    let mut j: usize = i + 1;
    assert(seq![first@] + views(rest@) =~= seq![first@]);
    while punct_is(ts, j, '.')
        invariant
            j <= ts@.len(),
            field_at(ts@, i as int) == dotted_from(ts@, j as int, seq![first@] + views(rest@)),
        decreases ts.len() - j,
    {
        match read_ident(ts, j + 1) {
            Ok(s) => {
                let ghost prev = rest@;
                rest.push(s);
                assert(seq![first@] + views(rest@) =~= (seq![first@] + views(prev)).push(s@));
                j = j + 2;
            },
            Err(e) => return Err(e),
        }
    }
    Ok((Field::new(first, rest), j))
}

/// Reads the comma-separated field paths of `ts`.
fn read_fields(ts: &Vec<Token>) -> (r: Result<Vec<Field>, String>)
    ensures
        match r {
            Ok(fs) => field_list(ts@) == Ok::<Seq<Seq<Seq<char>>>, Seq<char>>(fields_view(fs@)),
            Err(e) => field_list(ts@) == Err::<Seq<Seq<Seq<char>>>, Seq<char>>(e@),
        },
{
    let mut out: Vec<Field> = Vec::new();
    let mut i: usize = 0;
    assert(fields_view(out@) =~= Seq::<Seq<Seq<char>>>::empty());
    while i < ts.len()
        invariant
            i <= ts@.len(),
            field_list(ts@) == fields_from(ts@, i as int, fields_view(out@)),
        decreases ts.len() - i,
    {
        match read_field(ts, i) {
            Err(e) => return Err(e),
            Ok((f, j)) => {
                proof {
                    lemma_dotted_advances(ts@, i + 1, seq![ident_at(ts@, i as int)->Ok_0]);
                }
                let ghost prev = out@;
                let ghost fv = f@;
                out.push(f);
                assert(fields_view(out@) =~= fields_view(prev).push(fv));
                if j >= ts.len() {
                    return Ok(out);
                }
                if !punct_is(ts, j, ',') {
                    return Err("expected `,`".to_owned());
                }
                i = j + 1;
            },
        }
    }
    Ok(out)
}

/// The view of a read item path.
pub open spec fn path_view(leading: bool, segments: Seq<String>) -> ItemPath {
    ItemPath { leading, segments: views(segments) }
}

/// Reads the path of a nested item at `i`: whether it starts with `::`,
/// its segments, and where it ends.
fn read_item_path(ts: &Vec<Token>, i: usize) -> (r: Result<(bool, Vec<String>, usize), String>)
    requires
        i <= ts@.len(),
    ensures
        match (r, item_path_at(ts@, i as int)) {
            (Ok((l, segs, j)), Ok((p, k))) => path_view(l, segs@) == p && j == k,
            (Err(e), Err(m)) => e@ == m,
            _ => false,
        },
{
    let n = ts.len();
    let leading = path_sep_is(ts, i);
    let k = if leading {
        i + 2
    } else {
        i
    };
    if k >= n {
        return Err("unexpected end of input, expected nested attribute".to_owned());
    }
    let first = match &ts[k] {
        Token::Ident(s) => s.clone(),
        Token::Str(_) => {
            return Err("unexpected literal in nested attribute, expected ident".to_owned());
        },
        Token::Literal(_) => {
            return Err("unexpected literal in nested attribute, expected ident".to_owned());
        },
        _ => {
            return Err("unexpected token in nested attribute, expected ident".to_owned());
        },
    };
    let mut segs: Vec<String> = Vec::new();
    segs.push(first);
    let mut j: usize = k + 1;
    assert(views(segs@) =~= seq![first@]);
    while path_sep_is(ts, j)
        invariant
            j <= n,
            n == ts@.len(),
            k < n,
            item_path_at(ts@, i as int) == match colons_from(ts@, j as int, views(segs@)) {
                Err(e) => Err(e),
                Ok((s, e)) => Ok((ItemPath { leading, segments: s }, e)),
            },
        decreases n - j,
    {
        if j + 2 >= n {
            return Err("unexpected end of input, expected ident".to_owned());
        }
        let next = match &ts[j + 2] {
            Token::Ident(s) => s.clone(),
            _ => {
                return Err("expected ident".to_owned());
            },
        };
        let ghost prev = segs@;
        segs.push(next);
        assert(views(segs@) =~= views(prev).push(next@));
        j = j + 3;
    }
    Ok((leading, segs, j))
}

/// Whether the path is the single word `word`.
fn path_is(leading: bool, segs: &Vec<String>, word: &str) -> (r: bool)
    ensures
        r == is_word(path_view(leading, segs@), word@),
{
    if leading || segs.len() != 1 {
        proof {
            if !leading {
                assert(views(segs@).len() != seq![word@].len());
            }
        }
        return false;
    }
    let same = segs[0] == word.to_owned();
    assert(same ==> views(segs@) =~= seq![word@]);
    assert(views(segs@) == seq![word@] ==> views(segs@)[0] == word@);
    same
}

/// The value of the string literal at `i`, if there is one.
fn read_str(ts: &Vec<Token>, i: usize) -> (r: Option<String>)
    ensures
        match r {
            Some(s) => str_at(ts@, i as int) == Some(s@),
            None => str_at(ts@, i as int) is None,
        },
{
    if i < ts.len() {
        match &ts[i] {
            Token::Str(s) => Some(s.clone()),
            _ => None,
        }
    } else {
        None
    }
}

/// The contents of the parenthesized group at `i`, if there is one.
fn read_parens(ts: &Vec<Token>, i: usize) -> (r: Option<&Vec<Token>>)
    ensures
        match r {
            Some(inner) => parens_at(ts@, i as int) == Some(inner@),
            None => parens_at(ts@, i as int) is None,
        },
{
    if i < ts.len() {
        match &ts[i] {
            Token::Group(Delimiter::Parenthesis, inner) => Some(inner),
            _ => None,
        }
    } else {
        None
    }
}

/// Reads the arguments of an index item from `j`.
fn read_index_item(ts: &Vec<Token>, leading: bool, segs: &Vec<String>, j: usize) -> (r: (
    IndexMeta,
    usize,
))
    requires
        j <= ts@.len(),
    ensures
        (r.0@, r.1 as int) == index_item_at(ts@, path_view(leading, segs@), j as int),
{
    let n = ts.len();
    if path_is(leading, segs, "name") {
        if !punct_is(ts, j, '=') {
            return (IndexMeta::Malformed("expected `=`".to_owned()), j);
        }
        match read_str(ts, j + 1) {
            Some(s) => (IndexMeta::Name(s), j + 2),
            None => {
                let e = if j + 1 >= n {
                    "unexpected end of input, expected string literal".to_owned()
                } else {
                    "expected string literal".to_owned()
                };
                (IndexMeta::Malformed(e), j)
            },
        }
    } else if path_is(leading, segs, "pk") || path_is(leading, segs, "sk") {
        match read_parens(ts, j) {
            None => {
                let e = if j >= n {
                    "unexpected end of input, expected parentheses".to_owned()
                } else {
                    "expected parentheses".to_owned()
                };
                (IndexMeta::Malformed(e), j)
            },
            Some(inner) => match read_fields(inner) {
                Err(e) => (IndexMeta::Malformed(e), j),
                Ok(fs) => {
                    if path_is(leading, segs, "pk") {
                        (IndexMeta::Pk(fs), j + 1)
                    } else {
                        (IndexMeta::Sk(fs), j + 1)
                    }
                },
            },
        }
    } else {
        (IndexMeta::Unknown, j)
    }
}

/// Reads the items of an index declaration, stopping after the first
/// syntax error.
pub fn read_index_items(ts: &Vec<Token>) -> (r: Vec<IndexMeta>)
    ensures
        index_metas_view(r@) == index_items(ts@),
{
    let n = ts.len();
    let mut out: Vec<IndexMeta> = Vec::new();
    let mut i: usize = 0;
    assert(index_metas_view(out@) =~= Seq::<IndexMetaView>::empty());
    loop
        invariant
            i <= n,
            n == ts@.len(),
            index_items(ts@) == index_items_from(ts@, i as int, index_metas_view(out@)),
        decreases n - i,
    {
        let ghost acc = index_metas_view(out@);
        match read_item_path(ts, i) {
            Err(e) => {
                let item = IndexMeta::Malformed(e);
                let ghost iv = item@;
                out.push(item);
                assert(index_metas_view(out@) =~= acc.push(iv));
                return out;
            },
            Ok((leading, segs, j)) => {
                proof {
                    lemma_item_path_advances(ts@, i as int);
                }
                let (item, k) = read_index_item(ts, leading, &segs, j);
                let malformed = matches!(item, IndexMeta::Malformed(_));
                let ghost iv = item@;
                out.push(item);
                assert(index_metas_view(out@) =~= acc.push(iv));
                if malformed || k >= n {
                    return out;
                }
                if !punct_is(ts, k, ',') {
                    let ghost with_item = index_metas_view(out@);
                    let bad = IndexMeta::Malformed("expected `,`".to_owned());
                    let ghost bv = bad@;
                    out.push(bad);
                    assert(index_metas_view(out@) =~= with_item.push(bv));
                    return out;
                }
                if k + 1 >= n {
                    return out;
                }
                i = k + 1;
            },
        }
    }
}

/// Reads the arguments of an attribute item from `j`.
fn read_entity_item(ts: &Vec<Token>, leading: bool, segs: &Vec<String>, j: usize) -> (r: (
    Meta,
    usize,
))
    requires
        j <= ts@.len(),
    ensures
        (r.0@, r.1 as int) == entity_item_at(ts@, path_view(leading, segs@), j as int),
{
    let n = ts.len();
    if path_is(leading, segs, "name") {
        if !punct_is(ts, j, '=') {
            return (Meta::Malformed("expected `=`".to_owned()), j);
        }
        match read_str(ts, j + 1) {
            Some(s) => (Meta::Name(s), j + 2),
            None => {
                let e = if j + 1 >= n {
                    "unexpected end of input, expected string literal".to_owned()
                } else {
                    "expected string literal".to_owned()
                };
                (Meta::Malformed(e), j)
            },
        }
    } else if path_is(leading, segs, "pk") || path_is(leading, segs, "sk") {
        match read_parens(ts, j) {
            None => {
                let e = if j >= n {
                    "unexpected end of input, expected parentheses".to_owned()
                } else {
                    "expected parentheses".to_owned()
                };
                (Meta::Malformed(e), j)
            },
            Some(inner) => match read_fields(inner) {
                Err(e) => (Meta::Malformed(e), j),
                Ok(fs) => {
                    if path_is(leading, segs, "pk") {
                        (Meta::Pk(fs), j + 1)
                    } else {
                        (Meta::Sk(fs), j + 1)
                    }
                },
            },
        }
    } else if path_is(leading, segs, "index") {
        match read_parens(ts, j) {
            None => {
                let e = if j >= n {
                    "unexpected end of input, expected parentheses".to_owned()
                } else {
                    "expected parentheses".to_owned()
                };
                (Meta::Malformed(e), j)
            },
            Some(inner) => (Meta::Index(read_index_items(inner)), j + 1),
        }
    } else {
        (Meta::Unknown, j)
    }
}

/// Reads the items of the attribute's arguments `ts`, stopping after the
/// first syntax error.
pub fn read_entity_items(ts: &Vec<Token>) -> (r: Vec<Meta>)
    ensures
        metas_view(r@) == entity_items(ts@),
{
    let n = ts.len();
    let mut out: Vec<Meta> = Vec::new();
    let mut i: usize = 0;
    assert(metas_view(out@) =~= Seq::<MetaView>::empty());
    loop
        invariant
            i <= n,
            n == ts@.len(),
            entity_items(ts@) == entity_items_from(ts@, i as int, metas_view(out@)),
        decreases n - i,
    {
        let ghost acc = metas_view(out@);
        match read_item_path(ts, i) {
            Err(e) => {
                let item = Meta::Malformed(e);
                let ghost iv = item@;
                out.push(item);
                assert(metas_view(out@) =~= acc.push(iv));
                return out;
            },
            Ok((leading, segs, j)) => {
                proof {
                    lemma_item_path_advances(ts@, i as int);
                }
                let (item, k) = read_entity_item(ts, leading, &segs, j);
                let malformed = matches!(item, Meta::Malformed(_));
                let ghost iv = item@;
                out.push(item);
                assert(metas_view(out@) =~= acc.push(iv));
                if malformed || k >= n {
                    return out;
                }
                if !punct_is(ts, k, ',') {
                    let ghost with_item = metas_view(out@);
                    let bad = Meta::Malformed("expected `,`".to_owned());
                    let ghost bv = bad@;
                    out.push(bad);
                    assert(metas_view(out@) =~= with_item.push(bv));
                    return out;
                }
                if k + 1 >= n {
                    return out;
                }
                i = k + 1;
            },
        }
    }
}

} // verus!
