//! Reading and editing configuration files.
//!
//! Keys are dotted paths such as `watcher.debounce_ms`. Files are edited in place, so that
//! their comments and their layout stay.

use crate::command_error;
use crate::command_error::{CommandError, CommandErrorKind, ErrorModel};
use crate::config;
use crate::path::{FsPath, PathModel};
use crate::paths;
use crate::text;
use vstd::prelude::*;

verus! {

/// `toml_edit::DocumentMut`: a TOML file that can be edited.
#[verifier::external_type_specification]
#[verifier::external_body]
pub struct ExDocumentMut(toml_edit::DocumentMut);

/// `toml_edit::Table`: a table of a TOML file.
#[verifier::external_type_specification]
#[verifier::external_body]
pub struct ExTable(toml_edit::Table);

/// `toml_edit::Item`: something with a key in a TOML file.
#[verifier::external_type_specification]
#[verifier::external_body]
pub struct ExItem(toml_edit::Item);

/// `toml_edit::Value`: a value of a TOML file.
#[verifier::external_type_specification]
#[verifier::external_body]
pub struct ExValue(toml_edit::Value);

/// `toml_edit::TomlError`: why a text is not TOML.
#[verifier::external_type_specification]
#[verifier::external_body]
pub struct ExTomlError(toml_edit::TomlError);

/// `toml_edit::Decor`: what stands in front of a value and behind it, comments and white space.
#[verifier::external_type_specification]
#[verifier::external_body]
pub struct ExDecor(toml_edit::Decor);

/// What stands under a key.
pub enum Node {
    Table(TableModel),
    /// A value: its text, and what stands around it.
    Value(Seq<char>, toml_edit::Decor),
    /// Anything else: its text.
    Other(Seq<char>),
}

/// A table, with the layout of its own lines.
pub struct TableModel {
    /// What stands in front of the header and behind it.
    pub header: Seq<char>,
    /// The keys in their order, each with how it is written, together with the comments and
    /// the white space in front of it.
    pub keys: Seq<(Seq<char>, Seq<char>)>,
    pub entries: Map<Seq<char>, Node>,
}

/// What a table holds, and how it is laid out.
pub uninterp spec fn contents(t: toml_edit::Table) -> TableModel;

/// What a document holds, and how it is laid out.
pub uninterp spec fn document_contents(d: toml_edit::DocumentMut) -> TableModel;

/// What stands behind the last entry of a document.
pub uninterp spec fn document_end(d: toml_edit::DocumentMut) -> Seq<char>;

/// Whether the whole of a document is a table, as it is of every document that was parsed.
pub uninterp spec fn is_document(d: toml_edit::DocumentMut) -> bool;

/// The text of a value, without what stands around it.
pub uninterp spec fn value_text(v: toml_edit::Value) -> Seq<char>;

/// What stands around a value.
pub uninterp spec fn around(v: toml_edit::Value) -> toml_edit::Decor;

/// What an error of the parser says.
pub uninterp spec fn fault_of(e: toml_edit::TomlError) -> Seq<char>;

/// What a text is as a TOML document, or why it is none.
pub uninterp spec fn parsed_document(t: Seq<char>) -> Result<toml_edit::DocumentMut, Seq<char>>;

/// The text of the TOML value that a text is, with what stands around it, or why it is none.
pub uninterp spec fn parsed_value(t: Seq<char>) -> Result<
    (Seq<char>, toml_edit::Decor),
    Seq<char>,
>;

/// `toml_edit::DocumentMut::from_str`: a function of the text. What it gives is a table as a
/// whole.
#[verifier::external_body]
fn parse_document(t: &str) -> (r: Result<toml_edit::DocumentMut, toml_edit::TomlError>)
    ensures
        match r {
            Ok(d) => parsed_document(t@) == Ok::<_, Seq<char>>(d) && is_document(d),
            Err(e) => parsed_document(t@) == Err::<toml_edit::DocumentMut, _>(fault_of(e)),
        },
{
    t.parse::<toml_edit::DocumentMut>()
}

/// `toml_edit::Value::from_str`: a function of the text.
#[verifier::external_body]
fn parse_value(t: &str) -> (r: Result<toml_edit::Value, toml_edit::TomlError>)
    ensures
        match r {
            Ok(v) => parsed_value(t@) == Ok::<_, Seq<char>>((value_text(v), around(v))),
            Err(e) => parsed_value(t@) == Err::<(Seq<char>, toml_edit::Decor), _>(fault_of(e)),
        },
{
    t.parse::<toml_edit::Value>()
}

/// The words of a `toml_edit::TomlError`, by its `Display`.
#[verifier::external_body]
fn fault_text(e: &toml_edit::TomlError) -> (r: String)
    ensures
        r@ == fault_of(*e),
{
    e.to_string()
}

/// `toml_edit::DocumentMut::as_table_mut`: the table of the top keys. What stands behind the
/// last entry does not change with it.
#[verifier::external_body]
fn root_mut(d: &mut toml_edit::DocumentMut) -> (r: &mut toml_edit::Table)
    requires
        is_document(*old(d)),
    ensures
        is_document(*final(d)),
        contents(*r) == document_contents(*old(d)),
        document_contents(*final(d)) == contents(*final(r)),
        document_end(*final(d)) == document_end(*old(d)),
{
    d.as_table_mut()
}

/// `toml_edit::Table::contains_key`: whether something stands under a key.
#[verifier::external_body]
fn has_key(t: &toml_edit::Table, key: &str) -> (r: bool)
    ensures
        r == contents(*t).entries.contains_key(key@),
{
    t.contains_key(key)
}

/// The keys of a table but for one.
pub open spec fn without(keys: Seq<(Seq<char>, Seq<char>)>, key: Seq<char>) -> Seq<
    (Seq<char>, Seq<char>),
> {
    keys.filter(|k: (Seq<char>, Seq<char>)| k.0 != key)
}

/// A table that was just made.
pub open spec fn new_table() -> TableModel {
    TableModel { header: Seq::empty(), keys: Seq::empty(), entries: Map::empty() }
}

/// `toml_edit::Table::insert` of a new table. The other keys stay as they are written and in
/// their order.
#[verifier::external_body]
fn add_table(t: &mut toml_edit::Table, key: &str)
    ensures
        contents(*final(t)).header == contents(*old(t)).header,
        contents(*final(t)).entries == contents(*old(t)).entries.insert(
            key@,
            Node::Table(new_table()),
        ),
        without(contents(*final(t)).keys, key@) == without(contents(*old(t)).keys, key@),
{
    t.insert(key, toml_edit::Item::Table(toml_edit::Table::new()));
}

/// `toml_edit::Table::get`, `toml_edit::Item::as_value` and `toml_edit::Value::decor`: what
/// stands around the value under a key, if a value stands there.
#[verifier::external_body]
fn around_at(t: &toml_edit::Table, key: &str) -> (r: Option<toml_edit::Decor>)
    ensures
        match r {
            Some(d) => contents(*t).entries.contains_key(key@) && contents(*t).entries[key@] is Value
                && contents(*t).entries[key@]->Value_1 == d,
            None => !(contents(*t).entries.contains_key(key@)
                && contents(*t).entries[key@] is Value),
        },
{
    let value = t.get(key)?.as_value()?;
    Some(value.decor().clone())
}

/// `toml_edit::Value::decor_mut`, and an assignment to what it gives: the value gets other
/// surroundings and is the same otherwise.
#[verifier::external_body]
fn set_around(v: &mut toml_edit::Value, d: toml_edit::Decor)
    ensures
        around(*final(v)) == d,
        value_text(*final(v)) == value_text(*old(v)),
{
    *v.decor_mut() = d;
}

/// `IndexMut` of a `toml_edit::Table`, and an assignment of a value to what it gives: the
/// value stands under the key, in the place of what stood there. A key that was there stays
/// as it is written and in its place, and so do all others.
#[verifier::external_body]
fn put_value(t: &mut toml_edit::Table, key: &str, value: toml_edit::Value)
    ensures
        contents(*final(t)).header == contents(*old(t)).header,
        contents(*final(t)).entries == contents(*old(t)).entries.insert(
            key@,
            Node::Value(value_text(value), around(value)),
        ),
        without(contents(*final(t)).keys, key@) == without(contents(*old(t)).keys, key@),
        contents(*old(t)).entries.contains_key(key@) ==> contents(*final(t)).keys == contents(
            *old(t),
        ).keys,
{
    t[key] = toml_edit::Item::Value(value);
}

/// `toml_edit::Table::remove`. The other keys stay as they are written and in their order.
#[verifier::external_body]
fn remove_key(t: &mut toml_edit::Table, key: &str)
    ensures
        contents(*final(t)).header == contents(*old(t)).header,
        contents(*final(t)).entries == contents(*old(t)).entries.remove(key@),
        contents(*final(t)).keys == without(contents(*old(t)).keys, key@),
{
    t.remove(key);
}

/// `IndexMut` of a `toml_edit::Table` and `toml_edit::Item::as_table_mut`: the table under a
/// key, if one stands there. What is done to it is done in place, and nothing else changes.
#[verifier::external_body]
fn table_at<'a>(t: &'a mut toml_edit::Table, key: &str) -> (r: Option<&'a mut toml_edit::Table>)
    ensures
        match r {
            Some(c) => contents(*old(t)).entries.contains_key(key@) && contents(
                *old(t),
            ).entries[key@] == Node::Table(contents(*c)) && contents(*final(t)) == contents(
                *old(t),
            ).with(key@, contents(*final(c))),
            None => !(contents(*old(t)).entries.contains_key(key@) && contents(
                *old(t),
            ).entries[key@] is Table) && contents(*final(t)) == contents(*old(t)),
        },
{
    t[key].as_table_mut()
}

/// What the document holds as a whole.
pub uninterp spec fn document_item(d: toml_edit::DocumentMut) -> toml_edit::Item;

/// What stands under a key of something, if anything does.
pub uninterp spec fn item_child(i: toml_edit::Item, key: Seq<char>) -> Option<toml_edit::Item>;

/// The text of something in a document.
pub uninterp spec fn item_words(i: toml_edit::Item) -> Seq<char>;

/// The text of a document.
pub uninterp spec fn written(d: toml_edit::DocumentMut) -> Seq<char>;

/// `toml_edit::DocumentMut::as_item`.
#[verifier::external_body]
fn root_item(d: &toml_edit::DocumentMut) -> (r: &toml_edit::Item)
    ensures
        *r == document_item(*d),
{
    d.as_item()
}

/// `toml_edit::Item::get` with a key: a function of the item and the key.
#[verifier::external_body]
fn child_item<'a>(i: &'a toml_edit::Item, key: &str) -> (r: Option<&'a toml_edit::Item>)
    ensures
        match r {
            Some(c) => item_child(*i, key@) == Some(*c),
            None => item_child(*i, key@) is None,
        },
{
    i.get(key)
}

/// The text of a `toml_edit::Item`, by its `Display`.
#[verifier::external_body]
fn item_text(i: &toml_edit::Item) -> (r: String)
    ensures
        r@ == item_words(*i),
{
    i.to_string()
}

/// The text of a `toml_edit::DocumentMut`, by its `Display`. How the text follows from the
/// entries and their layout is not said.
#[verifier::external_body]
fn document_text(d: &toml_edit::DocumentMut) -> (r: String)
    ensures
        r@ == written(*d),
{
    d.to_string()
}

/// What is said where a key leads through something that is no table.
pub open spec fn not_a_table(seg: Seq<char>) -> ErrorModel {
    command_error::user(seg + " is not a table"@)
}

impl TableModel {
    /// With a table under a key that is there.
    pub open spec fn with(self, key: Seq<char>, below: TableModel) -> TableModel {
        TableModel { entries: self.entries.insert(key, Node::Table(below)), ..self }
    }

    /// Whether a table stands under a key.
    pub open spec fn has_table(self, key: Seq<char>) -> bool {
        self.entries.contains_key(key) && self.entries[key] is Table
    }

    /// The table under a key.
    pub open spec fn table(self, key: Seq<char>) -> TableModel {
        self.entries[key]->Table_0
    }
}

/// Whether the lines of a table are laid out as before, but for that of one key. A key that
/// was there keeps its place.
pub open spec fn same_layout(before: TableModel, after: TableModel, key: Seq<char>) -> bool {
    &&& after.header == before.header
    &&& without(after.keys, key) == without(before.keys, key)
    &&& before.entries.contains_key(key) ==> after.keys == before.keys
}

/// What stands around a value that is set under a key: what stood around the value there
/// before, or else what came with it.
pub open spec fn surroundings(t: TableModel, key: Seq<char>, own: toml_edit::Decor) -> toml_edit::Decor {
    if t.entries.contains_key(key) && t.entries[key] is Value {
        t.entries[key]->Value_1
    } else {
        own
    }
}

/// What setting a value under a path does, and its error, if there is one. Tables that are
/// missing on the way are made, also where the value turns out to be none. Comments, white
/// space and the order of keys stay.
pub open spec fn sets(
    before: TableModel,
    after: TableModel,
    path: Seq<Seq<char>>,
    value: Result<(Seq<char>, toml_edit::Decor), Seq<char>>,
    fault: Option<ErrorModel>,
) -> bool
    decreases path.len(),
{
    if path.len() <= 1 {
        match value {
            Ok(v) => {
                &&& fault is None
                &&& after.entries == before.entries.insert(
                    path[0],
                    Node::Value(v.0, surroundings(before, path[0], v.1)),
                )
                &&& same_layout(before, after, path[0])
            },
            Err(f) => fault == Some(command_error::user("invalid TOML value: "@ + f)) && after
                == before,
        }
    } else if !before.entries.contains_key(path[0]) || before.has_table(path[0]) {
        &&& after.has_table(path[0])
        &&& after.entries == before.entries.insert(path[0], Node::Table(after.table(path[0])))
        &&& same_layout(before, after, path[0])
        &&& sets(
            if before.entries.contains_key(path[0]) {
                before.table(path[0])
            } else {
                new_table()
            },
            after.table(path[0]),
            path.skip(1),
            value,
            fault,
        )
    } else {
        fault == Some(not_a_table(path[0])) && after == before
    }
}

/// What removing what stands under a path does, and its error, if there is one. Comments,
/// white space and the order of the other keys stay.
pub open spec fn unsets(
    before: TableModel,
    after: TableModel,
    path: Seq<Seq<char>>,
    key: Seq<char>,
    fault: Option<ErrorModel>,
) -> bool
    decreases path.len(),
{
    if path.len() <= 1 {
        if before.entries.contains_key(path[0]) {
            &&& fault is None
            &&& after.header == before.header
            &&& after.entries == before.entries.remove(path[0])
            &&& after.keys == without(before.keys, path[0])
        } else {
            fault == Some(command_error::user("key not found: "@ + key)) && after == before
        }
    } else if before.has_table(path[0]) {
        &&& after.has_table(path[0])
        &&& after == before.with(path[0], after.table(path[0]))
        &&& unsets(before.table(path[0]), after.table(path[0]), path.skip(1), key, fault)
    } else {
        fault == Some(not_a_table(path[0])) && after == before
    }
}

/// The error of a result, if it has one.
pub open spec fn fault_in(r: Result<(), CommandError>) -> Option<ErrorModel> {
    match r {
        Ok(_) => None,
        Err(e) => Some(e@),
    }
}

fn no_table(seg: &str) -> (r: CommandError)
    ensures
        r@ == not_a_table(seg@),
{
    CommandError::user_error(text::concat(seg, " is not a table"))
}

fn set_in(t: &mut toml_edit::Table, path: &Vec<String>, at: usize, raw_value: &str) -> (r: Result<
    (),
    CommandError,
>)
    requires
        at < path@.len(),
    ensures
        sets(
            contents(*old(t)),
            contents(*final(t)),
            text::views(path@).skip(at as int),
            parsed_value(raw_value@),
            fault_in(r),
        ),
    decreases path@.len() - at,
{
    let ghost p = text::views(path@).skip(at as int);
    let seg = path[at].as_str();
    assert(p[0] == seg@);
    if at == path.len() - 1 {
        return match parse_value(raw_value) {
            Ok(v) => {
                let mut value = v;
                if let Some(d) = around_at(t, seg) {
                    set_around(&mut value, d);
                }
                put_value(t, seg, value);
                Ok(())
            },
            Err(e) => Err(
                CommandError::user_error(
                    text::concat("invalid TOML value: ", fault_text(&e).as_str()),
                ),
            ),
        };
    }
    let ghost given = contents(*t);
    if !has_key(t, seg) {
        add_table(t, seg);
    }
    let ghost made = contents(*t);
    assert(p.skip(1) =~= text::views(path@).skip(at + 1));
    let r = match table_at(t, seg) {
        Some(c) => set_in(c, path, at + 1, raw_value),
        None => Err(no_table(seg)),
    };
    proof {
        if made.has_table(seg@) {
            let below = contents(*t).table(seg@);
            assert(made.entries.insert(seg@, Node::Table(below)) =~= given.entries.insert(
                seg@,
                Node::Table(below),
            ));
        }
    }
    r
}

/// Sets a value in a document. The value is written in TOML.
pub fn set_key(doc: &mut toml_edit::DocumentMut, key: &str, raw_value: &str) -> (r: Result<
    (),
    CommandError,
>)
    requires
        is_document(*old(doc)),
    ensures
        is_document(*final(doc)),
        document_end(*final(doc)) == document_end(*old(doc)),
        sets(
            document_contents(*old(doc)),
            document_contents(*final(doc)),
            text::split(key@, '.'),
            parsed_value(raw_value@),
            fault_in(r),
        ),
{
    let path = text::split_on(key, '.');
    assert(text::views(path@).skip(0) =~= text::split(key@, '.'));
    set_in(root_mut(doc), &path, 0, raw_value)
}

fn unset_in(t: &mut toml_edit::Table, path: &Vec<String>, at: usize, key: &str) -> (r: Result<
    (),
    CommandError,
>)
    requires
        at < path@.len(),
    ensures
        unsets(
            contents(*old(t)),
            contents(*final(t)),
            text::views(path@).skip(at as int),
            key@,
            fault_in(r),
        ),
    decreases path@.len() - at,
{
    let ghost p = text::views(path@).skip(at as int);
    let seg = path[at].as_str();
    assert(p[0] == seg@);
    if at == path.len() - 1 {
        if !has_key(t, seg) {
            return Err(CommandError::user_error(text::concat("key not found: ", key)));
        }
        remove_key(t, seg);
        return Ok(());
    }
    assert(p.skip(1) =~= text::views(path@).skip(at + 1));
    match table_at(t, seg) {
        Some(c) => unset_in(c, path, at + 1, key),
        None => Err(no_table(seg)),
    }
}

/// Removes a key from a document.
pub fn unset_key(doc: &mut toml_edit::DocumentMut, key: &str) -> (r: Result<(), CommandError>)
    requires
        is_document(*old(doc)),
    ensures
        is_document(*final(doc)),
        document_end(*final(doc)) == document_end(*old(doc)),
        unsets(
            document_contents(*old(doc)),
            document_contents(*final(doc)),
            text::split(key@, '.'),
            key@,
            fault_in(r),
        ),
{
    let path = text::split_on(key, '.');
    assert(text::views(path@).skip(0) =~= text::split(key@, '.'));
    unset_in(root_mut(doc), &path, 0, key)
}

/// What stands at the end of a path, from its place `k` on.
pub open spec fn walked(i: toml_edit::Item, path: Seq<Seq<char>>, k: int) -> Option<toml_edit::Item>
    decreases path.len() - k,
{
    if k >= path.len() {
        Some(i)
    } else {
        match item_child(i, path[k]) {
            Some(c) => walked(c, path, k + 1),
            None => None,
        }
    }
}

/// What a key of a configuration says, in words. The configuration is given as TOML.
pub open spec fn gotten(rendered: Seq<char>, key: Seq<char>) -> Result<Seq<char>, ErrorModel> {
    match parsed_document(rendered) {
        Ok(d) => match walked(document_item(d), text::split(key, '.'), 0) {
            Some(i) => Ok(text::trim_end(item_words(i)) + "\n"@),
            None => Err(command_error::user("key not found: "@ + key)),
        },
        Err(f) => Err(command_error::user("parse: "@ + f)),
    }
}

/// Whether a result is this text, or this error.
pub open spec fn gives(r: Result<String, CommandError>, want: Result<Seq<char>, ErrorModel>) -> bool {
    match r {
        Ok(t) => want == Ok::<_, ErrorModel>(t@),
        Err(e) => want == Err::<Seq<char>, _>(e@),
    }
}

/// What a key of a configuration says. The configuration is given as TOML.
pub fn get_key(rendered: &str, key: &str) -> (r: Result<String, CommandError>)
    ensures
        gives(r, gotten(rendered@, key@)),
{
    let doc = match parse_document(rendered) {
        Ok(d) => d,
        Err(e) => {
            return Err(
                CommandError::user_error(text::concat("parse: ", fault_text(&e).as_str())),
            );
        },
    };
    let path = text::split_on(key, '.');
    let ghost p = text::split(key@, '.');
    let mut current = root_item(&doc);
    let mut k: usize = 0;
    while k < path.len()
        invariant
            k <= path.len(),
            p == text::split(key@, '.'),
            p == text::views(path@),
            parsed_document(rendered@) == Ok::<_, Seq<char>>(doc),
            walked(document_item(doc), p, 0) == walked(*current, p, k as int),
        decreases path.len() - k,
    {
        assert(p[k as int] == path@[k as int]@);
        match child_item(current, path[k].as_str()) {
            Some(c) => {
                current = c;
            },
            None => {
                return Err(CommandError::user_error(text::concat("key not found: ", key)));
            },
        }
        k += 1;
    }
    assert(p.len() == path@.len());
    let t = text::trimmed_end(item_text(current).as_str());
    Ok(text::concat(t.as_str(), "\n"))
}

/// What stands under a path in a table.
pub open spec fn node_at(t: TableModel, path: Seq<Seq<char>>) -> Option<Node>
    decreases path.len(),
{
    if path.len() == 0 || !t.entries.contains_key(path[0]) {
        None
    } else if path.len() == 1 {
        Some(t.entries[path[0]])
    } else {
        match t.entries[path[0]] {
            Node::Table(c) => node_at(c, path.skip(1)),
            _ => None,
        }
    }
}

/// Whether two paths part at some place, so that neither leads through the other.
pub open spec fn part_ways(a: Seq<Seq<char>>, b: Seq<Seq<char>>) -> bool
    decreases a.len(),
{
    a.len() > 0 && b.len() > 0 && (a[0] != b[0] || part_ways(a.skip(1), b.skip(1)))
}

/// A value that was set is what is read under its key. Where a value stood there, what stood
/// around it still does.
pub proof fn law_set_is_read_back(
    before: TableModel,
    after: TableModel,
    path: Seq<Seq<char>>,
    v: (Seq<char>, toml_edit::Decor),
)
    requires
        path.len() > 0,
        sets(before, after, path, Ok(v), None),
    ensures
        match node_at(before, path) {
            Some(Node::Value(_, d)) => node_at(after, path) == Some(Node::Value(v.0, d)),
            _ => node_at(after, path) == Some(Node::Value(v.0, v.1)),
        },
    decreases path.len(),
{
    if path.len() > 1 {
        let below = if before.entries.contains_key(path[0]) {
            before.table(path[0])
        } else {
            new_table()
        };
        law_set_is_read_back(below, after.table(path[0]), path.skip(1), v);
        assert(node_at(new_table(), path.skip(1)) is None);
    }
}

/// Setting a value leaves all keys alone that part from its own, whether it succeeds or
/// not.
pub proof fn law_set_keeps_other_keys(
    before: TableModel,
    after: TableModel,
    path: Seq<Seq<char>>,
    value: Result<(Seq<char>, toml_edit::Decor), Seq<char>>,
    fault: Option<ErrorModel>,
    other: Seq<Seq<char>>,
)
    requires
        sets(before, after, path, value, fault),
        part_ways(path, other),
    ensures
        node_at(after, other) == node_at(before, other),
    decreases path.len(),
{
    reveal_with_fuel(part_ways, 2);
    reveal_with_fuel(node_at, 2);
    if path.len() > 1 && other[0] == path[0] && after.has_table(path[0]) {
        if !before.entries.contains_key(path[0]) {
            law_set_keeps_other_keys(
                new_table(),
                after.table(path[0]),
                path.skip(1),
                value,
                fault,
                other.skip(1),
            );
            assert(node_at(new_table(), other.skip(1)) is None);
        } else if before.has_table(path[0]) {
            law_set_keeps_other_keys(
                before.table(path[0]),
                after.table(path[0]),
                path.skip(1),
                value,
                fault,
                other.skip(1),
            );
        }
    }
}

/// The table that a path leads to; the empty path leads to the table itself.
pub open spec fn table_under(t: TableModel, path: Seq<Seq<char>>) -> Option<TableModel>
    decreases path.len(),
{
    if path.len() == 0 {
        Some(t)
    } else if t.has_table(path[0]) {
        table_under(t.table(path[0]), path.skip(1))
    } else {
        None
    }
}

/// Setting a value keeps comments, white space and the order of keys: each table on the way
/// has the header it had, its keys stand as they stood, and only a key that was not there
/// is new.
pub proof fn law_set_keeps_the_layout(
    before: TableModel,
    after: TableModel,
    path: Seq<Seq<char>>,
    value: Result<(Seq<char>, toml_edit::Decor), Seq<char>>,
    fault: Option<ErrorModel>,
    n: int,
)
    requires
        sets(before, after, path, value, fault),
        0 <= n < path.len(),
        table_under(before, path.take(n)) is Some,
    ensures
        table_under(after, path.take(n)) is Some,
        same_layout(
            table_under(before, path.take(n))->0,
            table_under(after, path.take(n))->0,
            path[n],
        ),
    decreases path.len(),
{
    reveal_with_fuel(table_under, 2);
    if n > 0 {
        assert(path.take(n).skip(1) =~= path.skip(1).take(n - 1));
        assert(before.has_table(path[0]));
        law_set_keeps_the_layout(
            before.table(path[0]),
            after.table(path[0]),
            path.skip(1),
            value,
            fault,
            n - 1,
        );
    } else {
        assert(path.take(0) =~= Seq::empty());
    }
}

/// Removing a key succeeds where something stands under it, and then nothing does.
pub proof fn law_unset_removes(
    before: TableModel,
    after: TableModel,
    path: Seq<Seq<char>>,
    key: Seq<char>,
    fault: Option<ErrorModel>,
)
    requires
        path.len() > 0,
        unsets(before, after, path, key, fault),
    ensures
        fault is None <==> node_at(before, path) is Some,
        node_at(after, path) is None,
    decreases path.len(),
{
    if path.len() > 1 && before.has_table(path[0]) {
        law_unset_removes(
            before.table(path[0]),
            after.table(path[0]),
            path.skip(1),
            key,
            fault,
        );
    }
}

/// Removing a key leaves all keys alone that part from it.
pub proof fn law_unset_keeps_other_keys(
    before: TableModel,
    after: TableModel,
    path: Seq<Seq<char>>,
    key: Seq<char>,
    fault: Option<ErrorModel>,
    other: Seq<Seq<char>>,
)
    requires
        unsets(before, after, path, key, fault),
        part_ways(path, other),
    ensures
        node_at(after, other) == node_at(before, other),
    decreases path.len(),
{
    reveal_with_fuel(part_ways, 2);
    reveal_with_fuel(node_at, 2);
    if path.len() > 1 && before.has_table(path[0]) && other[0] == path[0] {
        law_unset_keeps_other_keys(
            before.table(path[0]),
            after.table(path[0]),
            path.skip(1),
            key,
            fault,
            other.skip(1),
        );
    }
}

/// Removing a key keeps comments, white space and the order of the other keys: each table on
/// the way has the header it had, and its other keys stand as they stood.
pub proof fn law_unset_keeps_the_layout(
    before: TableModel,
    after: TableModel,
    path: Seq<Seq<char>>,
    key: Seq<char>,
    fault: Option<ErrorModel>,
    n: int,
)
    requires
        unsets(before, after, path, key, fault),
        0 <= n < path.len(),
        table_under(before, path.take(n)) is Some,
    ensures
        table_under(after, path.take(n)) is Some,
        table_under(after, path.take(n))->0.header == table_under(before, path.take(n))->0.header,
        table_under(after, path.take(n))->0.keys == (if n == path.len() - 1 && fault is None {
            without(table_under(before, path.take(n))->0.keys, path[n])
        } else {
            table_under(before, path.take(n))->0.keys
        }),
    decreases path.len(),
{
    reveal_with_fuel(table_under, 2);
    if n > 0 {
        assert(path.take(n).skip(1) =~= path.skip(1).take(n - 1));
        assert(before.has_table(path[0]));
        law_unset_keeps_the_layout(
            before.table(path[0]),
            after.table(path[0]),
            path.skip(1),
            key,
            fault,
            n - 1,
        );
    } else {
        assert(path.take(0) =~= Seq::empty());
    }
}

/// A value that was set can be removed again.
pub proof fn law_unset_undoes_set(
    before: TableModel,
    between: TableModel,
    after: TableModel,
    path: Seq<Seq<char>>,
    v: (Seq<char>, toml_edit::Decor),
    key: Seq<char>,
    fault: Option<ErrorModel>,
)
    requires
        path.len() > 0,
        sets(before, between, path, Ok(v), None),
        unsets(between, after, path, key, fault),
    ensures
        fault is None,
        node_at(after, path) is None,
{
    law_set_is_read_back(before, between, path, v);
    law_unset_removes(between, after, path, key, fault);
}

/// The layers of the configuration.
#[derive(Clone, Copy, Debug, PartialEq, Eq, Structural)]
pub enum ConfigLayerArg {
    User,
    Repo,
    Effective,
}

/// What to do with the configuration.
#[derive(Debug)]
pub enum ConfigCommand {
    /// Print the configuration in force, or one layer.
    Show { layer: Option<ConfigLayerArg> },
    /// Print the value of a key.
    Get { key: String },
    /// Set a value in the user's configuration.
    SetValue { key: String, value: String },
    /// Remove a key from the user's configuration.
    Unset { key: String },
    /// Print where the configuration files are.
    Path,
    /// Open the user's configuration in an editor.
    Edit,
}

/// The arguments of `grs config`.
#[derive(Debug)]
pub struct ConfigArgs {
    pub command: ConfigCommand,
}

/// A configuration file as it was found.
#[derive(Debug)]
pub enum ConfigFile {
    /// There is no such file.
    Missing,
    /// The file could not be read, for this reason.
    Unreadable(String),
    Text(String),
}

/// The layer to show.
pub fn layer_of(layer: Option<ConfigLayerArg>) -> (r: ConfigLayerArg)
    ensures
        r == match layer {
            Some(l) => l,
            None => ConfigLayerArg::Effective,
        },
{
    match layer {
        Some(l) => l,
        None => ConfigLayerArg::Effective,
    }
}

/// The user's configuration as it is shown, from the place where it should be.
pub fn show_user_config(path: &Option<FsPath>, found: &ConfigFile) -> (r: String)
    ensures
        r@ == match *path {
            Some(p) => match *found {
                ConfigFile::Text(t) => t@,
                ConfigFile::Unreadable(e) => "# error reading "@ + p@.text() + ": "@ + e@ + "\n"@,
                ConfigFile::Missing => "# "@ + p@.text() + " does not exist (using defaults)\n"@,
            },
            None => "# no HOME set; using defaults\n"@,
        },
{
    match path {
        Some(p) => match found {
            ConfigFile::Text(t) => t.clone(),
            ConfigFile::Unreadable(e) => {
                let mut r = text::concat3("# error reading ", p.text().as_str(), ": ");
                r.append(e.as_str());
                r.append("\n");
                r
            },
            ConfigFile::Missing => text::concat3(
                "# ",
                p.text().as_str(),
                " does not exist (using defaults)\n",
            ),
        },
        None => "# no HOME set; using defaults\n".to_owned(),
    }
}

/// The project's configuration as it is shown.
pub fn show_repo_config(root: &Option<FsPath>, found: &ConfigFile) -> (r: Result<
    String,
    CommandError,
>)
    ensures
        gives(
            r,
            match *root {
                Some(p) => match *found {
                    ConfigFile::Text(t) => Ok(t@),
                    ConfigFile::Unreadable(e) => Err(
                        ErrorModel {
                            kind: CommandErrorKind::Internal,
                            error: e@,
                            hints: Seq::empty(),
                        },
                    ),
                    ConfigFile::Missing => Ok(
                        "# "@ + config::repo_config_path(p@).text()
                            + " does not exist (using user + defaults)\n"@,
                    ),
                },
                None => Err(command_error::user("not in a grs repo"@)),
            },
        ),
{
    match root {
        Some(p) => match found {
            ConfigFile::Text(t) => Ok(t.clone()),
            ConfigFile::Unreadable(e) => Err(CommandError::internal_error(e.clone())),
            ConfigFile::Missing => Ok(
                text::concat3(
                    "# ",
                    p.join(paths::GRS_DIR).join(paths::CONFIG_FILE).text().as_str(),
                    " does not exist (using user + defaults)\n",
                ),
            ),
        },
        None => Err(CommandError::user_error("not in a grs repo".to_owned())),
    }
}

/// The configuration in force as it is shown, given as TOML or with the reason why it
/// cannot be.
pub fn show_effective(rendered: &Result<String, String>) -> (r: String)
    ensures
        r@ == match *rendered {
            Ok(t) => t@ + "\n"@,
            Err(e) => "# error: "@ + e@ + "\n"@ + "\n"@,
        },
{
    match rendered {
        Ok(t) => text::concat(t.as_str(), "\n"),
        Err(e) => {
            let mut r = text::concat3("# error: ", e.as_str(), "\n");
            r.append("\n");
            r
        },
    }
}

/// Where the configuration files are.
pub fn path_lines(user: &Option<FsPath>, root: &Option<FsPath>) -> (r: String)
    ensures
        r@ == (match *user {
            Some(p) => "user: "@ + p@.text() + "\n"@,
            None => "user: (no HOME — unset)\n"@,
        }) + (match *root {
            Some(p) => "repo: "@ + config::repo_config_path(p@).text() + "\n"@,
            None => "repo: (not in a grs repo)\n"@,
        }),
{
    let first = match user {
        Some(p) => text::concat3("user: ", p.text().as_str(), "\n"),
        None => "user: (no HOME — unset)\n".to_owned(),
    };
    let second = match root {
        Some(p) => text::concat3(
            "repo: ",
            p.join(paths::GRS_DIR).join(paths::CONFIG_FILE).text().as_str(),
            "\n",
        ),
        None => "repo: (not in a grs repo)\n".to_owned(),
    };
    text::concat(first.as_str(), second.as_str())
}

/// What is said where there is no place for the user's configuration.
pub open spec fn no_home() -> ErrorModel {
    command_error::user("cannot determine user config path (no HOME)"@)
}

/// The document that an edit starts from, or why there is none.
pub open spec fn loaded(path: PathModel, found: ConfigFile) -> Result<
    toml_edit::DocumentMut,
    ErrorModel,
> {
    match found {
        ConfigFile::Unreadable(e) => Err(
            ErrorModel { kind: CommandErrorKind::Internal, error: e@, hints: Seq::empty() },
        ),
        ConfigFile::Text(t) => match parsed_document(t@) {
            Ok(d) => Ok(d),
            Err(f) => Err(command_error::user("parse "@ + path.text() + ": "@ + f)),
        },
        ConfigFile::Missing => match parsed_document(config::DEFAULT_TOML@) {
            Ok(d) => Ok(d),
            Err(f) => Err(
                ErrorModel {
                    kind: CommandErrorKind::Internal,
                    error: "bundled default config must parse: "@ + f,
                    hints: Seq::empty(),
                },
            ),
        },
    }
}

fn load_or_default(path: &FsPath, found: &ConfigFile) -> (r: Result<
    toml_edit::DocumentMut,
    CommandError,
>)
    ensures
        match r {
            Ok(d) => loaded(path@, *found) == Ok::<_, ErrorModel>(d) && is_document(d),
            Err(e) => loaded(path@, *found) == Err::<toml_edit::DocumentMut, _>(e@),
        },
{
    match found {
        ConfigFile::Unreadable(e) => Err(CommandError::internal_error(e.clone())),
        ConfigFile::Text(t) => match parse_document(t.as_str()) {
            Ok(d) => Ok(d),
            Err(e) => {
                let mut m = text::concat3("parse ", path.text().as_str(), ": ");
                m.append(fault_text(&e).as_str());
                Err(CommandError::user_error(m))
            },
        },
        ConfigFile::Missing => match parse_document(config::DEFAULT_TOML) {
            Ok(d) => Ok(d),
            Err(e) => Err(
                CommandError::internal_error(
                    text::concat("bundled default config must parse: ", fault_text(&e).as_str()),
                ),
            ),
        },
    }
}

/// A file to write, and what to tell the user when it is written.
#[derive(Debug)]
pub struct Edit {
    pub path: FsPath,
    pub contents: String,
    pub status: String,
}

/// What is written after a value was set in a document: the text of what the document became.
pub open spec fn writes_set(
    e: Edit,
    path: PathModel,
    d: toml_edit::DocumentMut,
    key: Seq<char>,
    value: Seq<char>,
) -> bool {
    &&& e.path@ == path
    &&& e.status@ == "Set "@ + key + " = "@ + value + " in "@ + path.text()
    &&& exists|now: toml_edit::DocumentMut|
        sets(
            document_contents(d),
            document_contents(now),
            text::split(key, '.'),
            parsed_value(value),
            None,
        ) && document_end(now) == document_end(d) && e.contents@ == #[trigger] written(now)
}

/// Why a value cannot be set in a document.
pub open spec fn set_fails(
    d: toml_edit::DocumentMut,
    key: Seq<char>,
    value: Seq<char>,
    e: ErrorModel,
) -> bool {
    exists|after: TableModel| #[trigger]
        sets(document_contents(d), after, text::split(key, '.'), parsed_value(value), Some(e))
}

/// What is written after a key was removed from a document: the text of what the document
/// became.
pub open spec fn writes_unset(
    e: Edit,
    path: PathModel,
    d: toml_edit::DocumentMut,
    key: Seq<char>,
) -> bool {
    &&& e.path@ == path
    &&& e.status@ == "Removed "@ + key + " from "@ + path.text()
    &&& exists|now: toml_edit::DocumentMut|
        unsets(document_contents(d), document_contents(now), text::split(key, '.'), key, None)
            && document_end(now) == document_end(d) && e.contents@ == #[trigger] written(now)
}

/// Why a key cannot be removed from a document.
pub open spec fn unset_fails(d: toml_edit::DocumentMut, key: Seq<char>, e: ErrorModel) -> bool {
    exists|after: TableModel| #[trigger]
        unsets(document_contents(d), after, text::split(key, '.'), key, Some(e))
}

/// Sets a value in the user's configuration, which lies at `path` and was found so.
pub fn set_in_user_config(path: &Option<FsPath>, found: &ConfigFile, key: &str, value: &str) -> (r:
    Result<Edit, CommandError>)
    ensures
        match *path {
            None => r is Err && r->Err_0@ == no_home(),
            Some(p) => match loaded(p@, *found) {
                Err(e) => r is Err && r->Err_0@ == e,
                Ok(d) => match r {
                    Ok(e) => writes_set(e, p@, d, key@, value@),
                    Err(e) => set_fails(d, key@, value@, e@),
                },
            },
        },
{
    let p = match path {
        Some(p) => p,
        None => {
            return Err(
                CommandError::user_error("cannot determine user config path (no HOME)".to_owned()),
            );
        },
    };
    let mut doc = match load_or_default(p, found) {
        Ok(d) => d,
        Err(e) => {
            return Err(e);
        },
    };
    match set_key(&mut doc, key, value) {
        Ok(_) => {},
        Err(e) => {
            return Err(e);
        },
    }
    let mut status = text::concat3("Set ", key, " = ");
    status.append(value);
    status.append(" in ");
    status.append(p.text().as_str());
    Ok(Edit { path: p.copy(), contents: document_text(&doc), status })
}

/// Removes a key from the user's configuration, which lies at `path` and was found so.
pub fn unset_in_user_config(path: &Option<FsPath>, found: &ConfigFile, key: &str) -> (r: Result<
    Edit,
    CommandError,
>)
    ensures
        match *path {
            None => r is Err && r->Err_0@ == no_home(),
            Some(p) => if *found is Missing {
                r is Err && r->Err_0@ == command_error::user(
                    "user config does not exist: "@ + p@.text(),
                )
            } else {
                match loaded(p@, *found) {
                    Err(e) => r is Err && r->Err_0@ == e,
                    Ok(d) => match r {
                        Ok(e) => writes_unset(e, p@, d, key@),
                        Err(e) => unset_fails(d, key@, e@),
                    },
                }
            },
        },
{
    let p = match path {
        Some(p) => p,
        None => {
            return Err(
                CommandError::user_error("cannot determine user config path (no HOME)".to_owned()),
            );
        },
    };
    if let ConfigFile::Missing = found {
        return Err(
            CommandError::user_error(
                text::concat("user config does not exist: ", p.text().as_str()),
            ),
        );
    }
    let mut doc = match load_or_default(p, found) {
        Ok(d) => d,
        Err(e) => {
            return Err(e);
        },
    };
    match unset_key(&mut doc, key) {
        Ok(_) => {},
        Err(e) => {
            return Err(e);
        },
    }
    let mut status = text::concat3("Removed ", key, " from ");
    status.append(p.text().as_str());
    Ok(Edit { path: p.copy(), contents: document_text(&doc), status })
}

/// The editor to open: the visual one before the other.
pub fn choose_editor(visual: &Option<String>, editor: &Option<String>) -> (r: Result<
    String,
    CommandError,
>)
    ensures
        gives(
            r,
            match *visual {
                Some(e) => Ok(e@),
                None => match *editor {
                    Some(e) => Ok(e@),
                    None => Err(
                        command_error::user("set $VISUAL or $EDITOR to use `grs config edit`"@),
                    ),
                },
            },
        ),
{
    match visual {
        Some(e) => Ok(e.clone()),
        None => match editor {
            Some(e) => Ok(e.clone()),
            None => Err(
                CommandError::user_error(
                    "set $VISUAL or $EDITOR to use `grs config edit`".to_owned(),
                ),
            ),
        },
    }
}

/// What the command finds around it.
#[derive(Debug)]
pub struct ConfigEnv {
    /// Where the user's configuration should be.
    pub user_path: Option<FsPath>,
    pub user_file: ConfigFile,
    /// The root of the project.
    pub root: Option<FsPath>,
    pub repo_file: ConfigFile,
    /// The configuration in force as TOML, or why it cannot be written so.
    pub rendered: Result<String, String>,
    pub visual: Option<String>,
    pub editor: Option<String>,
}

/// What is left to do for a command.
#[derive(Debug)]
pub enum ConfigAction {
    /// Print this as primary output.
    Print(String),
    /// Write a file, then tell the user.
    Write(Edit),
    /// Open a file in the editor, if there is one. Where the file is missing it is made
    /// first, with the default configuration.
    OpenEditor { path: FsPath, make: bool, editor: Result<String, CommandError> },
}

/// Whether printing this text is what is left to do, or this error is what came of it.
pub open spec fn prints(
    r: Result<ConfigAction, CommandError>,
    want: Result<Seq<char>, ErrorModel>,
) -> bool {
    match r {
        Ok(ConfigAction::Print(t)) => want == Ok::<_, ErrorModel>(t@),
        Ok(_) => false,
        Err(e) => want == Err::<Seq<char>, _>(e@),
    }
}

/// What is shown of a layer.
pub open spec fn shown_layer(layer: Option<ConfigLayerArg>, env: ConfigEnv) -> Result<
    Seq<char>,
    ErrorModel,
> {
    match layer {
        Some(ConfigLayerArg::User) => Ok(
            match env.user_path {
                Some(p) => match env.user_file {
                    ConfigFile::Text(t) => t@,
                    ConfigFile::Unreadable(e) => "# error reading "@ + p@.text() + ": "@ + e@
                        + "\n"@,
                    ConfigFile::Missing => "# "@ + p@.text()
                        + " does not exist (using defaults)\n"@,
                },
                None => "# no HOME set; using defaults\n"@,
            },
        ),
        Some(ConfigLayerArg::Repo) => match env.root {
            Some(p) => match env.repo_file {
                ConfigFile::Text(t) => Ok(t@),
                ConfigFile::Unreadable(e) => Err(
                    ErrorModel { kind: CommandErrorKind::Internal, error: e@, hints: Seq::empty() },
                ),
                ConfigFile::Missing => Ok(
                    "# "@ + config::repo_config_path(p@).text()
                        + " does not exist (using user + defaults)\n"@,
                ),
            },
            None => Err(command_error::user("not in a grs repo"@)),
        },
        _ => Ok(
            match env.rendered {
                Ok(t) => t@ + "\n"@,
                Err(e) => "# error: "@ + e@ + "\n"@ + "\n"@,
            },
        ),
    }
}

/// What the command comes to: something to print, a file to write, an editor to open, or an
/// error.
pub open spec fn config_step(
    args: ConfigArgs,
    env: ConfigEnv,
    r: Result<ConfigAction, CommandError>,
) -> bool {
    match args.command {
        ConfigCommand::Show { layer } => prints(r, shown_layer(layer, env)),
        ConfigCommand::Get { key } => prints(
            r,
            match env.rendered {
                Ok(t) => gotten(t@, key@),
                Err(e) => Err(
                    ErrorModel {
                        kind: CommandErrorKind::Internal,
                        error: e@,
                        hints: Seq::empty(),
                    },
                ),
            },
        ),
        ConfigCommand::SetValue { key, value } => match env.user_path {
            None => r is Err && r->Err_0@ == no_home(),
            Some(p) => match loaded(p@, env.user_file) {
                Err(e) => r is Err && r->Err_0@ == e,
                Ok(d) => match r {
                    Ok(a) => a is Write && writes_set(a->Write_0, p@, d, key@, value@),
                    Err(e) => set_fails(d, key@, value@, e@),
                },
            },
        },
        ConfigCommand::Unset { key } => match env.user_path {
            None => r is Err && r->Err_0@ == no_home(),
            Some(p) => if env.user_file is Missing {
                r is Err && r->Err_0@ == command_error::user(
                    "user config does not exist: "@ + p@.text(),
                )
            } else {
                match loaded(p@, env.user_file) {
                    Err(e) => r is Err && r->Err_0@ == e,
                    Ok(d) => match r {
                        Ok(a) => a is Write && writes_unset(a->Write_0, p@, d, key@),
                        Err(e) => unset_fails(d, key@, e@),
                    },
                }
            },
        },
        ConfigCommand::Path => prints(
            r,
            Ok(
                (match env.user_path {
                    Some(p) => "user: "@ + p@.text() + "\n"@,
                    None => "user: (no HOME — unset)\n"@,
                }) + (match env.root {
                    Some(p) => "repo: "@ + config::repo_config_path(p@).text() + "\n"@,
                    None => "repo: (not in a grs repo)\n"@,
                }),
            ),
        ),
        ConfigCommand::Edit => match env.user_path {
            None => r is Err && r->Err_0@ == no_home(),
            Some(p) => r is Ok && r->Ok_0 is OpenEditor && r->Ok_0->path@ == p@
                && r->Ok_0->make == (env.user_file is Missing) && gives(
                r->Ok_0->editor,
                match env.visual {
                    Some(e) => Ok(e@),
                    None => match env.editor {
                        Some(e) => Ok(e@),
                        None => Err(
                            command_error::user(
                                "set $VISUAL or $EDITOR to use `grs config edit`"@,
                            ),
                        ),
                    },
                },
            ),
        },
    }
}

/// Runs `grs config` up to what must be printed, written or opened.
pub fn cmd_config(args: &ConfigArgs, env: ConfigEnv) -> (r: Result<ConfigAction, CommandError>)
    ensures
        config_step(*args, env, r),
{
    match &args.command {
        ConfigCommand::Show { layer } => match layer_of(*layer) {
            ConfigLayerArg::User => Ok(
                ConfigAction::Print(show_user_config(&env.user_path, &env.user_file)),
            ),
            ConfigLayerArg::Repo => match show_repo_config(&env.root, &env.repo_file) {
                Ok(t) => Ok(ConfigAction::Print(t)),
                Err(e) => Err(e),
            },
            ConfigLayerArg::Effective => Ok(ConfigAction::Print(show_effective(&env.rendered))),
        },
        ConfigCommand::Get { key } => match &env.rendered {
            Ok(t) => match get_key(t.as_str(), key.as_str()) {
                Ok(t) => Ok(ConfigAction::Print(t)),
                Err(e) => Err(e),
            },
            Err(e) => Err(CommandError::internal_error(e.clone())),
        },
        ConfigCommand::SetValue { key, value } => match set_in_user_config(
            &env.user_path,
            &env.user_file,
            key.as_str(),
            value.as_str(),
        ) {
            Ok(e) => Ok(ConfigAction::Write(e)),
            Err(e) => Err(e),
        },
        ConfigCommand::Unset { key } => match unset_in_user_config(
            &env.user_path,
            &env.user_file,
            key.as_str(),
        ) {
            Ok(e) => Ok(ConfigAction::Write(e)),
            Err(e) => Err(e),
        },
        ConfigCommand::Path => Ok(ConfigAction::Print(path_lines(&env.user_path, &env.root))),
        ConfigCommand::Edit => match &env.user_path {
            Some(p) => Ok(
                ConfigAction::OpenEditor {
                    path: p.copy(),
                    make: match &env.user_file {
                        ConfigFile::Missing => true,
                        _ => false,
                    },
                    editor: choose_editor(&env.visual, &env.editor),
                },
            ),
            None => Err(
                CommandError::user_error("cannot determine user config path (no HOME)".to_owned()),
            ),
        },
    }
}

/// A key with one more part is found in what its other parts lead to.
pub proof fn law_key_is_followed_part_by_part(
    i: toml_edit::Item,
    path: Seq<Seq<char>>,
    last: Seq<char>,
    k: int,
)
    requires
        0 <= k <= path.len(),
    ensures
        walked(i, path, path.len() as int) == Some(i),
        walked(i, path.push(last), k) == (match walked(i, path, k) {
            Some(x) => item_child(x, last),
            None => None,
        }),
    decreases path.len() - k,
{
    let more = path.push(last);
    if k < path.len() {
        if let Some(c) = item_child(i, path[k]) {
            law_key_is_followed_part_by_part(c, path, last, k + 1);
        }
    } else {
        assert(more[k] == last);
        if let Some(c) = item_child(i, last) {
            assert(walked(c, more, k + 1) == Some(c));
        }
    }
}

/// What a key says is printed without white space behind it, and with a line end. A key that
/// leads nowhere is not found.
pub proof fn law_key_is_printed(
    rendered: Seq<char>,
    key: Seq<char>,
    d: toml_edit::DocumentMut,
)
    requires
        parsed_document(rendered) == Ok::<_, Seq<char>>(d),
    ensures
        match walked(document_item(d), text::split(key, '.'), 0) {
            Some(i) => gotten(rendered, key) matches Ok(t) && t.len() > 0 && t.last() == '\n'
                && text::has_prefix(item_words(i), t.drop_last()),
            None => gotten(rendered, key) == Err::<Seq<char>, ErrorModel>(
                command_error::user("key not found: "@ + key),
            ),
        },
{
    if let Some(i) = walked(document_item(d), text::split(key, '.'), 0) {
        let w = item_words(i);
        reveal_strlit("\n");
        text::law_trim_end_takes_white_space_from_the_end(w);
        let t = text::trim_end(w) + "\n"@;
        assert(t.drop_last() =~= text::trim_end(w));
    }
}

/// Whether nothing but tables stands on the way to a key.
pub open spec fn way_is_clear(t: TableModel, path: Seq<Seq<char>>) -> bool
    decreases path.len(),
{
    path.len() <= 1 || !t.entries.contains_key(path[0]) || (t.has_table(path[0]) && way_is_clear(
        t.table(path[0]),
        path.skip(1),
    ))
}

/// Setting succeeds exactly if the value is one and nothing but tables stands on the way.
pub proof fn law_setting_succeeds_on_a_clear_way(
    before: TableModel,
    after: TableModel,
    path: Seq<Seq<char>>,
    value: Result<(Seq<char>, toml_edit::Decor), Seq<char>>,
    fault: Option<ErrorModel>,
)
    requires
        path.len() > 0,
        sets(before, after, path, value, fault),
    ensures
        fault is None <==> value is Ok && way_is_clear(before, path),
        way_is_clear(before, path) ==> (value matches Err(f) ==> fault == Some(
            command_error::user("invalid TOML value: "@ + f),
        )),
    decreases path.len(),
{
    if path.len() > 1 {
        if !before.entries.contains_key(path[0]) {
            law_setting_succeeds_on_a_clear_way(
                new_table(),
                after.table(path[0]),
                path.skip(1),
                value,
                fault,
            );
            assert(way_is_clear(new_table(), path.skip(1)));
        } else if before.has_table(path[0]) {
            law_setting_succeeds_on_a_clear_way(
                before.table(path[0]),
                after.table(path[0]),
                path.skip(1),
                value,
                fault,
            );
        }
    }
}

/// A layer is shown as it is in its file. Where there is no file it says so, and outside a
/// project there is no layer of one. Without a layer the settings in force are shown.
pub proof fn law_layers_are_shown_as_they_are(env: ConfigEnv)
    ensures
        env.user_path is Some ==> (env.user_file matches ConfigFile::Text(t) ==> shown_layer(
            Some(ConfigLayerArg::User),
            env,
        ) == Ok::<_, ErrorModel>(t@)),
        env.root is Some ==> (env.repo_file matches ConfigFile::Text(t) ==> shown_layer(
            Some(ConfigLayerArg::Repo),
            env,
        ) == Ok::<_, ErrorModel>(t@)),
        env.root is None ==> shown_layer(Some(ConfigLayerArg::Repo), env) is Err,
        env.rendered matches Ok(t) ==> shown_layer(None, env) == Ok::<_, ErrorModel>(t@ + "\n"@),
        shown_layer(None, env) == shown_layer(Some(ConfigLayerArg::Effective), env),
{
}

/// An edit starts from the user's file, or from the first configuration where there is none.
pub proof fn law_edit_starts_from_the_file(path: PathModel, t: String, d: toml_edit::DocumentMut)
    ensures
        parsed_document(t@) == Ok::<_, Seq<char>>(d) ==> loaded(path, ConfigFile::Text(t)) == Ok::<
            _,
            ErrorModel,
        >(d),
        parsed_document(config::DEFAULT_TOML@) == Ok::<_, Seq<char>>(d) ==> loaded(
            path,
            ConfigFile::Missing,
        ) == Ok::<_, ErrorModel>(d),
        loaded(path, ConfigFile::Unreadable(t)) is Err,
{
}

/// What is written after a value was set reads as that value under its key, with every key that
/// parts from it as it was, and goes to the user's file. The status names the key, the value and
/// the file.
pub proof fn law_written_file_has_the_value(
    e: Edit,
    path: PathModel,
    d: toml_edit::DocumentMut,
    key: Seq<char>,
    value: Seq<char>,
    v: (Seq<char>, toml_edit::Decor),
    other: Seq<Seq<char>>,
)
    requires
        writes_set(e, path, d, key, value),
        parsed_value(value) == Ok::<_, Seq<char>>(v),
    ensures
        e.path@ == path,
        e.status@ == "Set "@ + key + " = "@ + value + " in "@ + path.text(),
        exists|now: toml_edit::DocumentMut|
            e.contents@ == #[trigger] written(now) && (node_at(
                document_contents(now),
                text::split(key, '.'),
            ) matches Some(Node::Value(t, _)) && t == v.0) && (part_ways(
                text::split(key, '.'),
                other,
            ) ==> node_at(document_contents(now), other) == node_at(document_contents(d), other)),
{
    let p = text::split(key, '.');
    text::law_split_pieces_make_the_text(key, '.');
    let now = choose|now: toml_edit::DocumentMut|
        sets(document_contents(d), document_contents(now), p, parsed_value(value), None)
            && document_end(now) == document_end(d) && e.contents@ == #[trigger] written(now);
    law_set_is_read_back(document_contents(d), document_contents(now), p, v);
    if part_ways(p, other) {
        law_set_keeps_other_keys(
            document_contents(d),
            document_contents(now),
            p,
            parsed_value(value),
            None,
            other,
        );
    }
}

/// What is written after a key was removed has nothing under it, and every key that parts from it
/// as it was. The status names the key and the file.
pub proof fn law_written_file_lacks_the_key(
    e: Edit,
    path: PathModel,
    d: toml_edit::DocumentMut,
    key: Seq<char>,
    other: Seq<Seq<char>>,
)
    requires
        writes_unset(e, path, d, key),
    ensures
        e.path@ == path,
        e.status@ == "Removed "@ + key + " from "@ + path.text(),
        node_at(document_contents(d), text::split(key, '.')) is Some,
        exists|now: toml_edit::DocumentMut|
            e.contents@ == #[trigger] written(now) && node_at(
                document_contents(now),
                text::split(key, '.'),
            ) is None && (part_ways(text::split(key, '.'), other) ==> node_at(
                document_contents(now),
                other,
            ) == node_at(document_contents(d), other)),
{
    let p = text::split(key, '.');
    text::law_split_pieces_make_the_text(key, '.');
    let now = choose|now: toml_edit::DocumentMut|
        unsets(document_contents(d), document_contents(now), p, key, None) && document_end(now)
            == document_end(d) && e.contents@ == #[trigger] written(now);
    law_unset_removes(document_contents(d), document_contents(now), p, key, None);
    if part_ways(p, other) {
        law_unset_keeps_other_keys(
            document_contents(d),
            document_contents(now),
            p,
            key,
            None,
            other,
        );
    }
}

/// Each command does its own: showing and reading print, setting and removing write the user's
/// file or fail, and editing opens that file, which is made first where there is none.
pub proof fn law_commands_do_their_own(
    args: ConfigArgs,
    env: ConfigEnv,
    r: Result<ConfigAction, CommandError>,
    d: toml_edit::DocumentMut,
)
    requires
        config_step(args, env, r),
    ensures
        match args.command {
            ConfigCommand::Show { layer } => match shown_layer(layer, env) {
                Ok(t) => r is Ok && r->Ok_0 is Print && r->Ok_0->Print_0@ == t,
                Err(e) => r is Err && r->Err_0@ == e,
            },
            ConfigCommand::Get { key } => env.rendered matches Ok(t) ==> match gotten(t@, key@) {
                Ok(t) => r is Ok && r->Ok_0 is Print && r->Ok_0->Print_0@ == t,
                Err(e) => r is Err && r->Err_0@ == e,
            },
            ConfigCommand::SetValue { key, value } => env.user_path matches Some(p) ==> loaded(
                p@,
                env.user_file,
            ) == Ok::<_, ErrorModel>(d) ==> (r matches Ok(a) ==> a is Write && writes_set(
                a->Write_0,
                p@,
                d,
                key@,
                value@,
            )) && (r matches Err(e) ==> set_fails(d, key@, value@, e@)),
            ConfigCommand::Unset { key } => env.user_path matches Some(p) ==> (
            env.user_file is Missing ==> r is Err) && (!(env.user_file is Missing) && loaded(
                p@,
                env.user_file,
            ) == Ok::<_, ErrorModel>(d) ==> (r matches Ok(a) ==> a is Write && writes_unset(
                a->Write_0,
                p@,
                d,
                key@,
            )) && (r matches Err(e) ==> unset_fails(d, key@, e@))),
            ConfigCommand::Path => r is Ok && r->Ok_0 is Print,
            ConfigCommand::Edit => env.user_path matches Some(p) ==> r is Ok
                && r->Ok_0 is OpenEditor && r->Ok_0->path@ == p@ && r->Ok_0->make
                == (env.user_file is Missing),
        },
        env.user_path is None && (args.command is SetValue || args.command is Unset
            || args.command is Edit) ==> r is Err,
{
}

/// The visual editor comes before the other, and without either there is nothing to open.
pub proof fn law_visual_editor_comes_first(
    args: ConfigArgs,
    env: ConfigEnv,
    r: Result<ConfigAction, CommandError>,
)
    requires
        config_step(args, env, r),
        args.command is Edit,
        env.user_path is Some,
    ensures
        env.visual matches Some(e) ==> r->Ok_0->editor matches Ok(t) && t@ == e@,
        env.visual is None ==> (env.editor matches Some(e) ==> r->Ok_0->editor matches Ok(t) && t@
            == e@),
        env.visual is None && env.editor is None ==> r->Ok_0->editor is Err,
{
}

/// A value is refused exactly for the reasons that setting it has: it is no value, or the key leads
/// through something that is no table.
pub proof fn law_refused_values_have_a_reason(
    d: toml_edit::DocumentMut,
    key: Seq<char>,
    value: Seq<char>,
    e: ErrorModel,
)
    requires
        set_fails(d, key, value, e),
    ensures
        !(parsed_value(value) is Ok && way_is_clear(document_contents(d), text::split(key, '.'))),
{
    let p = text::split(key, '.');
    text::law_split_pieces_make_the_text(key, '.');
    let after = choose|after: TableModel| #[trigger]
        sets(document_contents(d), after, p, parsed_value(value), Some(e));
    law_setting_succeeds_on_a_clear_way(
        document_contents(d),
        after,
        p,
        parsed_value(value),
        Some(e),
    );
}

/// A removal is refused only where nothing stands under the key.
pub proof fn law_refused_removals_have_a_reason(
    d: toml_edit::DocumentMut,
    key: Seq<char>,
    e: ErrorModel,
)
    requires
        unset_fails(d, key, e),
    ensures
        node_at(document_contents(d), text::split(key, '.')) is None,
{
    let p = text::split(key, '.');
    text::law_split_pieces_make_the_text(key, '.');
    let after = choose|after: TableModel| #[trigger]
        unsets(document_contents(d), after, p, key, Some(e));
    law_unset_removes(document_contents(d), after, p, key, Some(e));
}

} // verus!
