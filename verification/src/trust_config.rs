//! Applying trust edits to a Codex `config.toml`. The document is read and
//! written with `toml_edit`, which keeps everything else of the file as it
//! was written; which tables and keys are touched is decided here: under
//! `[hooks.state]`, the entries of removed handlers are deleted, the entries
//! of moved handlers are carried to their new keys, and an entry holding
//! `enabled = true` and `trusted_hash` is written for each new handler.
use vstd::prelude::*;

use toml_edit::{value, DocumentMut, Item, Table};

use crate::transaction::{string_views, CodexLifecycleError, ConfigEdit};
use crate::trust::{entries_view, pairs_view, TrustEntry};

verus! {

// ---------------------------------------------------------------------------
// The toml_edit document and its items
// ---------------------------------------------------------------------------
#[verifier::external_type_specification]
#[verifier::external_body]
pub struct ExDocumentMut(DocumentMut);

#[verifier::external_type_specification]
#[verifier::external_body]
pub struct ExItem(Item);

/// What an item of a TOML document holds, as far as trust edits read it:
/// the entries of a table or an inline table by key, a boolean, a string,
/// or something else.
pub enum TomlItem {
    Nothing,
    Table(Map<Seq<char>, Item>),
    InlineTable(Map<Seq<char>, Item>),
    ArrayOfTables,
    Boolean(bool),
    Text(Seq<char>),
    OtherValue,
}

/// What an item holds.
pub uninterp spec fn toml_item_view(item: Item) -> TomlItem;

/// The entries of a document's root table, by key.
pub uninterp spec fn toml_document_entries(doc: DocumentMut) -> Map<Seq<char>, Item>;

/// The entries of a table or an inline table.
pub open spec fn table_entries(item: Item) -> Option<Map<Seq<char>, Item>> {
    match toml_item_view(item) {
        TomlItem::Table(m) => Some(m),
        TomlItem::InlineTable(m) => Some(m),
        _ => None,
    }
}

/// A table or an inline table.
pub open spec fn table_like(item: Item) -> bool {
    table_entries(item) is Some
}

/// An item that is a value (what an inline table holds).
pub open spec fn value_item(item: Item) -> bool {
    match toml_item_view(item) {
        TomlItem::InlineTable(_) => true,
        TomlItem::Boolean(_) => true,
        TomlItem::Text(_) => true,
        TomlItem::OtherValue => true,
        _ => false,
    }
}

/// Two table-like items of the same sort.
pub open spec fn same_sort(a: Item, b: Item) -> bool {
    (toml_item_view(a) is Table && toml_item_view(b) is Table) || (toml_item_view(a) is InlineTable
        && toml_item_view(b) is InlineTable)
}

pub open spec fn entry_at(m: Map<Seq<char>, Item>, key: Seq<char>) -> Option<Item> {
    if m.dom().contains(key) {
        Some(m[key])
    } else {
        None
    }
}

/// The message `toml_edit` gives for a text that is not a TOML document, or
/// `None` for one that is.
pub uninterp spec fn toml_parse_failure(text: Seq<char>) -> Option<Seq<char>>;

/// The document `toml_edit` parses from a text.
pub uninterp spec fn toml_parsed(text: Seq<char>) -> DocumentMut;

/// A document written back out as text.
pub uninterp spec fn toml_rendered(doc: DocumentMut) -> Seq<char>;

/// A document after `Table::remove` of a root key, and what it returned.
pub uninterp spec fn toml_document_removed(doc: DocumentMut, key: Seq<char>) -> (DocumentMut, Option<Item>);

/// A document after `Table::insert` of a root key.
pub uninterp spec fn toml_document_inserted(doc: DocumentMut, key: Seq<char>, item: Item) -> DocumentMut;

/// A table-like item after `TableLike::remove`, and what it returned.
pub uninterp spec fn toml_removed(item: Item, key: Seq<char>) -> (Item, Option<Item>);

/// A table-like item after `TableLike::insert`.
pub uninterp spec fn toml_inserted(item: Item, key: Seq<char>, value: Item) -> Item;

/// The item `toml_edit::value` makes of a boolean.
pub uninterp spec fn toml_boolean(b: bool) -> Item;

/// The item `toml_edit::value` makes of a string.
pub uninterp spec fn toml_text(s: Seq<char>) -> Item;

/// Parses a text as a `toml_edit::DocumentMut` (`str::parse`): the
/// document, or the parser's error message.
#[verifier::external_body]
fn toml_parse(text: &str) -> (r: Result<DocumentMut, String>)
    ensures
        match toml_parse_failure(text@) {
            None => r == Ok::<DocumentMut, String>(toml_parsed(text@)),
            Some(m) => r matches Err(e) && e@ == m,
        },
{
    match text.parse::<DocumentMut>() {
        Ok(d) => Ok(d),
        Err(e) => Err(e.to_string()),
    }
}

/// A document as text (`Display`).
#[verifier::external_body]
fn toml_render(doc: &DocumentMut) -> (r: String)
    ensures
        r@ == toml_rendered(*doc),
{
    doc.to_string()
}

/// `Table::remove` on the root table: the key's item is taken out; a
/// missing key leaves the document as it was.
#[verifier::external_body]
fn toml_document_remove(doc: &mut DocumentMut, key: &str) -> (r: Option<Item>)
    ensures
        (*final(doc), r) == toml_document_removed(*old(doc), key@),
        toml_document_entries(*final(doc)) == toml_document_entries(*old(doc)).remove(key@),
        r == entry_at(toml_document_entries(*old(doc)), key@),
        r is None ==> *final(doc) == *old(doc),
{
    doc.as_table_mut().remove(key)
}

/// `Table::insert` on the root table: the key now holds the item.
#[verifier::external_body]
fn toml_document_insert(doc: &mut DocumentMut, key: &str, item: Item)
    ensures
        *final(doc) == toml_document_inserted(*old(doc), key@, item),
        toml_document_entries(*final(doc)) == toml_document_entries(*old(doc)).insert(key@, item),
{
    doc.as_table_mut().insert(key, item);
}

/// `Item::is_table_like`: a table or an inline table.
#[verifier::external_body]
fn toml_is_table_like(item: &Item) -> (r: bool)
    ensures
        r == table_like(*item),
{
    item.is_table_like()
}

/// `TableLike::remove` on a table-like item. A table gives the key's item
/// back as it was; an inline table gives it back as a value (an item that
/// already is one unchanged).
#[verifier::external_body]
fn toml_remove(item: &mut Item, key: &str) -> (r: Option<Item>)
    requires
        table_like(*old(item)),
    ensures
        (*final(item), r) == toml_removed(*old(item), key@),
        match toml_item_view(*old(item)) {
            TomlItem::Table(m) => toml_item_view(*final(item)) == TomlItem::Table(m.remove(key@))
                && r == entry_at(m, key@),
            TomlItem::InlineTable(m) => toml_item_view(*final(item)) == TomlItem::InlineTable(
                m.remove(key@),
            ) && (!m.dom().contains(key@) ==> r is None) && (m.dom().contains(key@) && value_item(
                m[key@],
            ) ==> r == Some(m[key@])) && (r matches Some(x) ==> value_item(x)),
            _ => true,
        },
{
    match item.as_table_like_mut() {
        Some(table) => table.remove(key),
        None => None,
    }
}

/// `TableLike::insert` on a table-like item: the key now holds the item (an
/// inline table holds it as a value, which a value already is).
#[verifier::external_body]
fn toml_insert(item: &mut Item, key: &str, value: Item)
    requires
        table_like(*old(item)),
        toml_item_view(*old(item)) is InlineTable ==> !(toml_item_view(value) is Nothing),
    ensures
        *final(item) == toml_inserted(*old(item), key@, value),
        match toml_item_view(*old(item)) {
            TomlItem::Table(m) => toml_item_view(*final(item)) == TomlItem::Table(m.insert(key@, value)),
            TomlItem::InlineTable(m) => toml_item_view(*final(item)) matches TomlItem::InlineTable(n)
                && n.dom() == m.dom().insert(key@) && (forall|k: Seq<char>|
                k != key@ && m.dom().contains(k) ==> #[trigger] n[k] == m[k]) && (value_item(value)
                ==> n[key@] == value),
            _ => true,
        },
{
    if let Some(table) = item.as_table_like_mut() {
        table.insert(key, value);
    }
}

/// `Item::Table(Table::new())`: an empty table.
#[verifier::external_body]
fn toml_empty_table() -> (r: Item)
    ensures
        toml_item_view(r) == TomlItem::Table(Map::<Seq<char>, Item>::empty()),
{
    Item::Table(Table::new())
}



/// `DocumentMut::new`: a document with an empty root table.
#[verifier::external_body]
fn toml_blank_document() -> (r: DocumentMut)
    ensures
        toml_document_entries(r).dom().len() == 0,
        toml_document_entries(r).dom().finite(),
{
    DocumentMut::new()
}

/// `Item::clone`: an equal item.
#[verifier::external_body]
fn toml_clone(item: &Item) -> (r: Item)
    ensures
        r == *item,
{
    item.clone()
}

/// `toml_edit::value` of a boolean.
#[verifier::external_body]
fn toml_boolean_item(b: bool) -> (r: Item)
    ensures
        r == toml_boolean(b),
        toml_item_view(r) == TomlItem::Boolean(b),
{
    value(b)
}

/// `toml_edit::value` of a string.
#[verifier::external_body]
fn toml_text_item(s: &str) -> (r: Item)
    ensures
        r == toml_text(s@),
        toml_item_view(r) == TomlItem::Text(s@),
{
    value(s)
}

// ---------------------------------------------------------------------------
// The edits, stated
// ---------------------------------------------------------------------------
/// Takes the entries of the moved keys out of a state table, in order,
/// noting each one's new key.
pub open spec fn taken_moves(state: Item, moves: Seq<(Seq<char>, Seq<char>)>) -> (Item, Seq<
    (Seq<char>, Option<Item>),
>)
    decreases moves.len(),
{
    if moves.len() == 0 {
        (state, Seq::empty())
    } else {
        let (s, acc) = taken_moves(state, moves.drop_last());
        let (t, v) = toml_removed(s, moves.last().0);
        (t, acc.push((moves.last().1, v)))
    }
}

/// Deletes keys from a state table, in order.
pub open spec fn keys_dropped(state: Item, keys: Seq<Seq<char>>) -> Item
    decreases keys.len(),
{
    if keys.len() == 0 {
        state
    } else {
        toml_removed(keys_dropped(state, keys.drop_last()), keys.last()).0
    }
}

/// Puts taken entries back under their new keys, in order.
pub open spec fn values_put(state: Item, taken: Seq<(Seq<char>, Option<Item>)>) -> Item
    decreases taken.len(),
{
    if taken.len() == 0 {
        state
    } else {
        let s = values_put(state, taken.drop_last());
        match taken.last().1 {
            Some(v) => toml_inserted(s, taken.last().0, v),
            None => s,
        }
    }
}

/// A state table with the entries of moved handlers carried to their new
/// keys and the entries of removed handlers deleted.
pub open spec fn state_rekeyed(
    state: Item,
    keys: Seq<Seq<char>>,
    moves: Seq<(Seq<char>, Seq<char>)>,
) -> Item {
    let (s, taken) = taken_moves(state, moves);
    values_put(keys_dropped(s, keys), taken)
}

/// The first edit, on the document: when there are keys to delete or move
/// and `[hooks.state]` exists, its entries are rekeyed; `Err` when `hooks`
/// or `hooks.state` is not a table.
pub open spec fn rekeyed_document(
    doc: DocumentMut,
    keys: Seq<Seq<char>>,
    moves: Seq<(Seq<char>, Seq<char>)>,
) -> Result<DocumentMut, ()> {
    if keys.len() == 0 && moves.len() == 0 {
        Ok(doc)
    } else {
        let (d, h) = toml_document_removed(doc, "hooks"@);
        match h {
            None => Ok(doc),
            Some(hooks) => if !table_like(hooks) {
                Err(())
            } else {
                let (g, s) = toml_removed(hooks, "state"@);
                match s {
                    None => Ok(toml_document_inserted(d, "hooks"@, g)),
                    Some(state) => if !table_like(state) {
                        Err(())
                    } else {
                        Ok(
                            toml_document_inserted(
                                d,
                                "hooks"@,
                                toml_inserted(g, "state"@, state_rekeyed(state, keys, moves)),
                            ),
                        )
                    },
                }
            },
        }
    }
}

/// One trust entry written into a state table: the key's table (an empty
/// one when missing) with `enabled = true` and the hash; `Err` when the key
/// holds something that is not a table.
pub open spec fn entry_written(state: Item, key: Seq<char>, hash: Seq<char>, empty: Item) -> Result<Item, ()> {
    let (s, old) = toml_removed(state, key);
    let base = match old {
        Some(x) => x,
        None => empty,
    };
    if !table_like(base) {
        Err(())
    } else {
        Ok(
            toml_inserted(
                s,
                key,
                toml_inserted(
                    toml_inserted(base, "enabled"@, toml_boolean(true)),
                    "trusted_hash"@,
                    toml_text(hash),
                ),
            ),
        )
    }
}

/// The trust entries written into a state table, in order.
pub open spec fn entries_written(state: Item, entries: Seq<(Seq<char>, Seq<char>)>, empty: Item) -> Result<
    Item,
    (),
>
    decreases entries.len(),
{
    if entries.len() == 0 {
        Ok(state)
    } else {
        match entries_written(state, entries.drop_last(), empty) {
            Err(()) => Err(()),
            Ok(s) => entry_written(s, entries.last().0, entries.last().1, empty),
        }
    }
}

/// The second edit, on the document: when there are entries to write, they
/// go into `[hooks.state]`, created when missing; `Err` when `hooks`,
/// `hooks.state` or an entry's key holds something that is not a table.
pub open spec fn entries_document(doc: DocumentMut, entries: Seq<(Seq<char>, Seq<char>)>, empty: Item) -> Result<
    DocumentMut,
    (),
> {
    if entries.len() == 0 {
        Ok(doc)
    } else {
        let (d, h) = toml_document_removed(doc, "hooks"@);
        let hooks = match h {
            Some(x) => x,
            None => empty,
        };
        if !table_like(hooks) {
            Err(())
        } else {
            let (g, s) = toml_removed(hooks, "state"@);
            let state = match s {
                Some(x) => x,
                None => empty,
            };
            if !table_like(state) {
                Err(())
            } else {
                match entries_written(state, entries, empty) {
                    Err(()) => Err(()),
                    Ok(t) => Ok(toml_document_inserted(d, "hooks"@, toml_inserted(g, "state"@, t))),
                }
            }
        }
    }
}

/// The document an edit leaves, starting from the parsed configuration
/// (`fresh`, an empty document, when there is no file) and using `empty`
/// for each table it creates: `Err(Some(m))` for a text that does not
/// parse, `Err(None)` for a `hooks`, `hooks.state` or entry that is not a
/// table.
pub open spec fn edited_document(
    original: Option<Seq<char>>,
    keys: Seq<Seq<char>>,
    moves: Seq<(Seq<char>, Seq<char>)>,
    entries: Seq<(Seq<char>, Seq<char>)>,
    empty: Item,
    fresh: DocumentMut,
) -> Result<DocumentMut, Option<Seq<char>>> {
    let start = match original {
        Some(t) => toml_parsed(t),
        None => fresh,
    };
    if original matches Some(t) && toml_parse_failure(t) is Some {
        Err(toml_parse_failure(original->0))
    } else {
        match rekeyed_document(start, keys, moves) {
            Err(()) => Err(None),
            Ok(d) => match entries_document(d, entries, empty) {
                Err(()) => Err(None),
                Ok(e) => Ok(e),
            },
        }
    }
}

/// The text of an optional string slice.
pub open spec fn opt_text(o: Option<&str>) -> Option<Seq<char>> {
    match o {
        Some(t) => Some(t@),
        None => None,
    }
}

/// What `edited_config` gives for an edit, the empty table and the empty
/// document being `empty` and `fresh`.
pub open spec fn edit_outcome(
    config_path: Seq<char>,
    original: Option<Seq<char>>,
    edit: ConfigEdit,
    empty: Item,
    fresh: DocumentMut,
    r: Result<String, CodexLifecycleError>,
) -> bool {
    &&& toml_item_view(empty) == TomlItem::Table(Map::<Seq<char>, Item>::empty())
    &&& toml_document_entries(fresh).dom().len() == 0
    &&& toml_document_entries(fresh).dom().finite()
    &&& match edited_document(
        original,
        string_views(edit.remove_keys@),
        pairs_view(edit.moves@),
        entries_view(edit.entries@),
        empty,
        fresh,
    ) {
        Ok(d) => r matches Ok(s) && s@ == toml_rendered(d),
        Err(Some(m)) => r matches Err(CodexLifecycleError::InvalidConfigToml { path, source }) && path@
            == config_path && source@ == m,
        Err(None) => r matches Err(CodexLifecycleError::InvalidConfigShape(p)) && p@ == config_path,
    }
}

// ---------------------------------------------------------------------------
// The edits, done
// ---------------------------------------------------------------------------
/// Nothing, or a value.
pub open spec fn value_or_none(o: Option<Item>) -> bool {
    match o {
        Some(x) => value_item(x),
        None => true,
    }
}

pub open spec fn taken_view(v: Seq<(String, Option<Item>)>) -> Seq<(Seq<char>, Option<Item>)> {
    v.map_values(|p: (String, Option<Item>)| (p.0@, p.1))
}

fn rekey_state(state: Item, keys: &Vec<String>, moves: &Vec<(String, String)>) -> (r: Item)
    requires
        table_like(state),
    ensures
        r == state_rekeyed(state, string_views(keys@), pairs_view(moves@)),
        same_sort(r, state),
{
    let ghost mv = pairs_view(moves@);
    let ghost kv = string_views(keys@);
    let mut s = state;
    let mut taken: Vec<(String, Option<Item>)> = Vec::new();
    let mut i: usize = 0;
    while i < moves.len()
        invariant
            i <= moves@.len(),
            mv == pairs_view(moves@),
            table_like(state),
            same_sort(s, state),
            (s, taken_view(taken@)) == taken_moves(state, mv.take(i as int)),
            toml_item_view(state) is InlineTable ==> forall|j: int|
                0 <= j < taken@.len() ==> value_or_none((#[trigger] taken@[j]).1),
        decreases moves.len() - i,
    {
        assert(mv.take(i + 1).drop_last() =~= mv.take(i as int));
        let v = toml_remove(&mut s, moves[i].0.as_str());
        let ghost before = taken@;
        taken.push((moves[i].1.clone(), v));
        assert(taken_view(taken@) =~= taken_view(before).push((moves@[i as int].1@, v)));
        i = i + 1;
    }
    assert(mv.take(mv.len() as int) =~= mv);
    let ghost after_moves = s;
    let mut k: usize = 0;
    while k < keys.len()
        invariant
            k <= keys@.len(),
            kv == string_views(keys@),
            table_like(state),
            same_sort(s, state),
            s == keys_dropped(after_moves, kv.take(k as int)),
        decreases keys.len() - k,
    {
        assert(kv.take(k + 1).drop_last() =~= kv.take(k as int));
        let _ = toml_remove(&mut s, keys[k].as_str());
        k = k + 1;
    }
    assert(kv.take(kv.len() as int) =~= kv);
    let ghost all_taken = taken_view(taken@);
    let ghost dropped = s;
    let n = taken.len();
    let mut j: usize = 0;
    while j < n
        invariant
            j <= n == all_taken.len(),
            taken@.len() == n - j,
            taken_view(taken@) == all_taken.skip(j as int),
            table_like(state),
            same_sort(s, state),
            s == values_put(dropped, all_taken.take(j as int)),
            toml_item_view(state) is InlineTable ==> forall|q: int|
                0 <= q < taken@.len() ==> value_or_none((#[trigger] taken@[q]).1),
        decreases n - j,
    {
        let ghost before = taken@;
        let (key, v) = taken.remove(0);
        proof {
            assert(taken_view(before)[0] == (key@, v));
            assert(taken_view(taken@) =~= taken_view(before).skip(1));
            assert(all_taken.skip(j as int).skip(1) =~= all_taken.skip(j + 1));
            assert(all_taken.take(j + 1).drop_last() =~= all_taken.take(j as int));
            assert(all_taken.take(j + 1).last() == all_taken[j as int]);
            assert(all_taken[j as int] == all_taken.skip(j as int)[0]);
            assert forall|q: int| 0 <= q < taken@.len() implies (toml_item_view(state) is InlineTable
                ==> value_or_none((#[trigger] taken@[q]).1)) by {
                assert(taken@[q] == before[q + 1]);
            }
            if toml_item_view(state) is InlineTable {
                assert(before[0].1 == v);
            }
        }
        match v {
            Some(item) => {
                toml_insert(&mut s, key.as_str(), item);
            },
            None => {},
        }
        j = j + 1;
    }
    assert(all_taken.take(n as int) =~= all_taken);
    s
}

proof fn lemma_entries_written_err(state: Item, entries: Seq<(Seq<char>, Seq<char>)>, empty: Item, k: int)
    requires
        0 <= k <= entries.len(),
        entries_written(state, entries.take(k), empty) is Err,
    ensures
        entries_written(state, entries, empty) is Err,
    decreases entries.len() - k,
{
    if k < entries.len() {
        assert(entries.take(k + 1).drop_last() =~= entries.take(k));
        lemma_entries_written_err(state, entries, empty, k + 1);
    } else {
        assert(entries.take(k) =~= entries);
    }
}

fn write_entries(state: Item, entries: &Vec<TrustEntry>, empty: &Item) -> (r: Result<Item, ()>)
    requires
        table_like(state),
        toml_item_view(*empty) == TomlItem::Table(Map::<Seq<char>, Item>::empty()),
    ensures
        r == entries_written(state, entries_view(entries@), *empty),
        r matches Ok(t) ==> same_sort(t, state),
{
    let ghost ev = entries_view(entries@);
    let mut s = state;
    let mut i: usize = 0;
    while i < entries.len()
        invariant
            i <= entries@.len(),
            ev == entries_view(entries@),
            table_like(state),
            toml_item_view(*empty) == TomlItem::Table(Map::<Seq<char>, Item>::empty()),
            same_sort(s, state),
            entries_written(state, ev.take(i as int), *empty) == Ok::<Item, ()>(s),
        decreases entries.len() - i,
    {
        assert(ev.take(i + 1).drop_last() =~= ev.take(i as int));
        let entry = &entries[i];
        let old = toml_remove(&mut s, entry.key.as_str());
        let mut base = match old {
            Some(x) => x,
            None => toml_clone(empty),
        };
        if !toml_is_table_like(&base) {
            proof {
                lemma_entries_written_err(state, ev, *empty, i + 1);
            }
            return Err(());
        }
        let enabled = toml_boolean_item(true);
        toml_insert(&mut base, "enabled", enabled);
        let hash = toml_text_item(entry.trusted_hash.as_str());
        toml_insert(&mut base, "trusted_hash", hash);
        toml_insert(&mut s, entry.key.as_str(), base);
        i = i + 1;
    }
    assert(ev.take(ev.len() as int) =~= ev);
    Ok(s)
}

/// Applies an edit to the configuration at `config_path` (its text, or
/// `None` when the file is missing), giving the text to write: see
/// `edited_document`. Each table this creates is `Item::Table(Table::new())`
/// and a missing file starts as `DocumentMut::new()`; the contract names
/// these two values rather than stating them.
pub fn edited_config(config_path: &str, original: Option<&str>, edit: &ConfigEdit) -> (r: Result<
    String,
    CodexLifecycleError,
>)
    ensures
        exists|empty: Item, fresh: DocumentMut| #[trigger]
            edit_outcome(config_path@, opt_text(original), *edit, empty, fresh, r),
{
    proof {
        reveal_strlit("hooks");
        reveal_strlit("state");
    }
    let empty = toml_empty_table();
    let fresh = toml_blank_document();
    let ghost fresh_view = fresh;
    let ghost kv = string_views(edit.remove_keys@);
    let ghost mv = pairs_view(edit.moves@);
    let ghost ev = entries_view(edit.entries@);
    let ghost start = match original {
        Some(t) => toml_parsed(t@),
        None => fresh_view,
    };
    let mut doc = match original {
        Some(t) => match toml_parse(t) {
            Ok(d) => d,
            Err(m) => {
                let r = Err(CodexLifecycleError::InvalidConfigToml { path: config_path.to_owned(), source: m });
                assert(edit_outcome(config_path@, opt_text(original), *edit, empty, fresh_view, r));
                return r;
            },
        },
        None => fresh,
    };
    assert(doc == start);
    if edit.remove_keys.len() > 0 || edit.moves.len() > 0 {
        match toml_document_remove(&mut doc, "hooks") {
            None => {},
            Some(mut hooks) => {
                if !toml_is_table_like(&hooks) {
                    let r = Err(CodexLifecycleError::InvalidConfigShape(config_path.to_owned()));
                    assert(edit_outcome(config_path@, opt_text(original), *edit, empty, fresh_view, r));
                    return r;
                }
                match toml_remove(&mut hooks, "state") {
                    None => {},
                    Some(state) => {
                        if !toml_is_table_like(&state) {
                            let r = Err(CodexLifecycleError::InvalidConfigShape(config_path.to_owned()));
                            assert(edit_outcome(config_path@, opt_text(original), *edit, empty, fresh_view, r));
                            return r;
                        }
                        let rekeyed = rekey_state(state, &edit.remove_keys, &edit.moves);
                        toml_insert(&mut hooks, "state", rekeyed);
                    },
                }
                toml_document_insert(&mut doc, "hooks", hooks);
            },
        }
    }
    assert(rekeyed_document(start, kv, mv) == Ok::<DocumentMut, ()>(doc));
    let ghost after_rekey = doc;
    if edit.entries.len() > 0 {
        let mut hooks = match toml_document_remove(&mut doc, "hooks") {
            Some(h) => h,
            None => toml_clone(&empty),
        };
        if !toml_is_table_like(&hooks) {
            let r = Err(CodexLifecycleError::InvalidConfigShape(config_path.to_owned()));
            assert(edit_outcome(config_path@, opt_text(original), *edit, empty, fresh_view, r));
            return r;
        }
        let state = match toml_remove(&mut hooks, "state") {
            Some(s) => s,
            None => toml_clone(&empty),
        };
        if !toml_is_table_like(&state) {
            let r = Err(CodexLifecycleError::InvalidConfigShape(config_path.to_owned()));
            assert(edit_outcome(config_path@, opt_text(original), *edit, empty, fresh_view, r));
            return r;
        }
        let written = match write_entries(state, &edit.entries, &empty) {
            Ok(t) => t,
            Err(()) => {
                let r = Err(CodexLifecycleError::InvalidConfigShape(config_path.to_owned()));
                assert(edit_outcome(config_path@, opt_text(original), *edit, empty, fresh_view, r));
                return r;
            },
        };
        toml_insert(&mut hooks, "state", written);
        toml_document_insert(&mut doc, "hooks", hooks);
    }
    assert(entries_document(after_rekey, ev, empty) == Ok::<DocumentMut, ()>(doc));
    let r = Ok(toml_render(&doc));
    assert(edit_outcome(config_path@, opt_text(original), *edit, empty, fresh_view, r));
    r
}

} // verus!
