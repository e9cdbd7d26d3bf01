//! The template store: a token and a list of named references. The file that
//! holds them is read and written by the caller; what a write does to the
//! stored data is decided here.

use crate::text::{same_text, text_of};
use vstd::prelude::*;
use vstd::string::*;

verus! {

/// A named reference.
#[derive(Debug, Clone, PartialEq, Eq)]
pub struct ListItem {
    pub name: String,
    pub value: String,
}

/// What the store holds.
#[derive(Debug, Clone, PartialEq, Eq)]
pub struct Data {
    pub cookie: Option<String>,
    pub list: Option<Vec<ListItem>>,
}

/// What a [`ListItem`] holds, as sequences of characters.
pub struct ItemView {
    pub name: Seq<char>,
    pub value: Seq<char>,
}

/// What a [`Data`] holds, as sequences of characters.
pub struct DataView {
    pub cookie: Option<Seq<char>>,
    pub list: Option<Seq<ItemView>>,
}

impl View for ListItem {
    type V = ItemView;

    open spec fn view(&self) -> ItemView {
        ItemView { name: self.name@, value: self.value@ }
    }
}

/// The views of a list of items.
pub open spec fn items(v: Seq<ListItem>) -> Seq<ItemView> {
    Seq::new(v.len(), |i: int| v[i]@)
}

/// The views of a list of items that may be missing.
pub open spec fn items_of(v: Option<Vec<ListItem>>) -> Option<Seq<ItemView>> {
    match v {
        Some(l) => Some(items(l@)),
        None => None,
    }
}

impl View for Data {
    type V = DataView;

    open spec fn view(&self) -> DataView {
        DataView { cookie: text_of(self.cookie), list: items_of(self.list) }
    }
}

impl Default for Data {
    /// The empty store.
    fn default() -> (d: Data)
        ensures
            d@ == (DataView { cookie: None, list: None }),
    {
        Data { cookie: None, list: None }
    }
}

/// A value handed to the store, as far as the store tells values apart.
#[derive(Debug, Clone, PartialEq, Eq)]
pub enum StoreValue {
    /// No value.
    Null,
    /// A text.
    Text(String),
    /// A list of named references.
    Items(Vec<ListItem>),
    /// Any other value.
    Other,
}

/// Why a write was refused.
#[derive(Debug, Clone, Copy, PartialEq, Eq)]
pub enum StoreError {
    /// The key is neither `cookie` nor `list`.
    InvalidKey,
}

impl StoreError {
    /// The one-line diagnostic of this failure.
    pub fn message(&self) -> (s: String)
        ensures
            s@ == "Invalid key"@,
    {
        String::from_str("Invalid key")
    }
}

/// The first index at or after `from` whose item has the name; the length of
/// the list if there is none.
pub open spec fn position(list: Seq<ItemView>, name: Seq<char>, from: int) -> int
    decreases list.len() - from,
{
    if from < 0 || from >= list.len() {
        list.len() as int
    } else if list[from].name == name {
        from
    } else {
        position(list, name, from + 1)
    }
}

/// The list with `item` in it: the first item of that name takes its value;
/// where there is none, the item is added at the end.
pub open spec fn upsert(list: Seq<ItemView>, item: ItemView) -> Seq<ItemView> {
    let i = position(list, item.name, 0);
    if i < list.len() {
        list.update(i, ItemView { name: list[i].name, value: item.value })
    } else {
        list.push(item)
    }
}

/// The list with the first `k` items of `new` in it, one after the other.
pub open spec fn merged(list: Seq<ItemView>, new: Seq<ItemView>, k: int) -> Seq<ItemView>
    decreases k,
{
    if k <= 0 {
        list
    } else {
        upsert(merged(list, new, k - 1), new[k - 1])
    }
}

/// The token that a value gives: the text, and none for anything else.
pub open spec fn cookie_of(value: StoreValue) -> Option<Seq<char>> {
    match value {
        StoreValue::Text(t) => Some(t@),
        _ => None,
    }
}

/// What a write leaves in the store. Under `cookie` the token is replaced by
/// what the value gives. Under `list` a list of items is merged into the
/// stored one, or stored as it is where none was stored; any other value
/// changes nothing. Any other key is refused.
pub open spec fn write_spec(data: DataView, key: Seq<char>, value: StoreValue) -> Result<
    DataView,
    StoreError,
> {
    if key == "cookie"@ {
        Ok(DataView { cookie: cookie_of(value), list: data.list })
    } else if key == "list"@ {
        match value {
            StoreValue::Items(new) => match data.list {
                Some(old) => Ok(
                    DataView {
                        cookie: data.cookie,
                        list: Some(merged(old, items(new@), new@.len() as int)),
                    },
                ),
                None => Ok(DataView { cookie: data.cookie, list: Some(items(new@)) }),
            },
            _ => Ok(data),
        }
    } else {
        Err(StoreError::InvalidKey)
    }
}

/// The position lies in the list or at its end; the item there has the
/// name, and none before it has.
pub proof fn lemma_position(list: Seq<ItemView>, name: Seq<char>, from: int)
    requires
        0 <= from <= list.len(),
    ensures
        from <= position(list, name, from) <= list.len(),
        position(list, name, from) < list.len() ==> list[position(list, name, from)].name == name,
        forall|i: int| from <= i < position(list, name, from) ==> (#[trigger] list[i]).name != name,
    decreases list.len() - from,
{
    if from < list.len() && list[from].name != name {
        lemma_position(list, name, from + 1);
    }
}

/// Merging keeps the names of the stored items and their order, and never
/// makes the list shorter.
pub proof fn law_merge_keeps_stored_names(list: Seq<ItemView>, new: Seq<ItemView>, k: int)
    requires
        0 <= k <= new.len(),
    ensures
        merged(list, new, k).len() >= list.len(),
        forall|i: int| 0 <= i < list.len() ==> (#[trigger] merged(list, new, k)[i]).name == list[i].name,
    decreases k,
{
    if k > 0 {
        law_merge_keeps_stored_names(list, new, k - 1);
        let before = merged(list, new, k - 1);
        lemma_position(before, new[k - 1].name, 0);
    }
}

fn find_name(list: &Vec<ListItem>, name: &String) -> (r: usize)
    ensures
        r == position(items(list@), name@, 0),
        r <= list.len(),
{
    let mut i: usize = 0;
    while i < list.len()
        invariant
            i <= list.len(),
            position(items(list@), name@, i as int) == position(items(list@), name@, 0),
        decreases list.len() - i,
    {
        if list[i].name == *name {
            return i;
        }
        i += 1;
    }
    i
}

fn copy_item(item: &ListItem) -> (r: ListItem)
    ensures
        r@ == item@,
{
    ListItem { name: item.name.clone(), value: item.value.clone() }
}

/// A copy of a list of items.
pub fn copy_items(list: &Vec<ListItem>) -> (r: Vec<ListItem>)
    ensures
        items(r@) == items(list@),
{
    let mut r: Vec<ListItem> = Vec::new();
    let mut i: usize = 0;
    while i < list.len()
        invariant
            i <= list.len(),
            r@.len() == i,
            forall|j: int| 0 <= j < i ==> r@[j]@ == list@[j]@,
        decreases list.len() - i,
    {
        r.push(copy_item(&list[i]));
        i += 1;
    }
    assert(items(r@) =~= items(list@));
    r
}

fn merge_into(existing: Vec<ListItem>, new: &Vec<ListItem>) -> (r: Vec<ListItem>)
    ensures
        items(r@) == merged(items(existing@), items(new@), new@.len() as int),
{
    let ghost old_items = items(existing@);
    let mut list = existing;
    let mut i: usize = 0;
    while i < new.len()
        invariant
            i <= new.len(),
            items(list@) == merged(old_items, items(new@), i as int),
        decreases new.len() - i,
    {
        let ghost before = items(list@);
        let item = &new[i];
        let at = find_name(&list, &item.name);
        if at < list.len() {
            let name = list[at].name.clone();
            list.set(at, ListItem { name, value: item.value.clone() });
            assert(items(list@) =~= before.update(
                at as int,
                ItemView { name: before[at as int].name, value: item@.value },
            ));
        } else {
            list.push(copy_item(item));
            assert(items(list@) =~= before.push(item@));
        }
        assert(items(new@)[i as int] == item@);
        i += 1;
    }
    list
}

/// Writes `value` under `key` into the stored data and gives what is then
/// stored.
pub fn write_to_see(data: Data, key: &str, value: StoreValue) -> (r: Result<Data, StoreError>)
    ensures
        match r {
            Ok(d) => write_spec(data@, key@, value) == Ok::<DataView, StoreError>(d@),
            Err(e) => write_spec(data@, key@, value) == Err::<DataView, StoreError>(e),
        },
        r is Ok <==> key@ == "cookie"@ || key@ == "list"@,
{
    let Data { cookie, list } = data;
    if same_text(key, "cookie") {
        let cookie = match value {
            StoreValue::Text(t) => Some(t),
            _ => None,
        };
        Ok(Data { cookie, list })
    } else if same_text(key, "list") {
        match value {
            StoreValue::Items(new) => {
                let list = match list {
                    Some(existing) => merge_into(existing, &new),
                    None => new,
                };
                Ok(Data { cookie, list: Some(list) })
            },
            _ => Ok(Data { cookie, list }),
        }
    } else {
        Err(StoreError::InvalidKey)
    }
}

/// What the store holds, given what its file held (`None` where there is no
/// file): a missing file is an empty store.
pub fn read_from_see(stored: Option<Data>) -> (d: Data)
    ensures
        d@ == match stored {
            Some(s) => s@,
            None => DataView { cookie: None, list: None },
        },
{
    match stored {
        Some(s) => s,
        None => Data::default(),
    }
}

/// The names of the stored references, in order.
pub open spec fn names_of(data: DataView) -> Seq<Seq<char>> {
    match data.list {
        Some(l) => Seq::new(l.len(), |i: int| l[i].name),
        None => Seq::empty(),
    }
}

/// The value stored under the first reference of that name.
pub open spec fn value_of(data: DataView, name: Seq<char>) -> Option<Seq<char>> {
    match data.list {
        Some(l) => if position(l, name, 0) < l.len() {
            Some(l[position(l, name, 0)].value)
        } else {
            None
        },
        None => None,
    }
}

/// The names of the stored references, in order.
pub fn names(data: &Data) -> (r: Vec<String>)
    ensures
        crate::text::texts(r@) == names_of(data@),
{
    let mut r: Vec<String> = Vec::new();
    match &data.list {
        Some(l) => {
            let mut i: usize = 0;
            while i < l.len()
                invariant
                    i <= l.len(),
                    r@.len() == i,
                    forall|j: int| 0 <= j < i ==> r@[j]@ == l@[j].name@,
                decreases l.len() - i,
            {
                r.push(l[i].name.clone());
                i += 1;
            }
            assert(crate::text::texts(r@) =~= names_of(data@));
        },
        None => {
            assert(crate::text::texts(r@) =~= names_of(data@));
        },
    }
    r
}

/// The value stored under the first reference of that name.
pub fn lookup(data: &Data, name: &str) -> (r: Option<String>)
    ensures
        text_of(r) == value_of(data@, name@),
{
    match &data.list {
        Some(l) => {
            let wanted = String::from_str(name);
            let at = find_name(l, &wanted);
            if at < l.len() {
                Some(l[at].value.clone())
            } else {
                None
            }
        },
        None => None,
    }
}

/// A write under `cookie` replaces the token, whatever was stored, and leaves
/// the list alone.
pub proof fn law_token_is_overwritten(data: DataView, token: String)
    ensures
        write_spec(data, "cookie"@, StoreValue::Text(token)) == Ok::<DataView, StoreError>(
            DataView { cookie: Some(token@), list: data.list },
        ),
{
}

} // verus!
