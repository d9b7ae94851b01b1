//! The structured document and the rule by which fields are merged into it.

use vstd::prelude::*;
use vstd::string::*;
use crate::value::{views_of, Value, ValueView};

verus! {

/// A document as a mathematical value: its entries, each a key with its
/// value, in the order in which the keys first arrived.
pub type DocumentView = Seq<(Seq<char>, ValueView)>;

/// No key occurs twice.
pub open spec fn distinct_keys(doc: DocumentView) -> bool {
    forall|i: int, j: int|
        0 <= i < doc.len() && 0 <= j < doc.len() && i != j ==> (#[trigger] doc[i]).0 != (
        #[trigger] doc[j]).0
}

/// The document has an entry under `key`.
pub open spec fn holds_key(doc: DocumentView, key: Seq<char>) -> bool {
    exists|i: int| 0 <= i < doc.len() && (#[trigger] doc[i]).0 == key
}

/// Where the entry under `key` stands. Meaningful where [`holds_key`].
pub open spec fn index_of(doc: DocumentView, key: Seq<char>) -> int {
    choose|i: int| 0 <= i < doc.len() && (#[trigger] doc[i]).0 == key
}

/// The value under `key`, if there is one.
pub open spec fn value_at(doc: DocumentView, key: Seq<char>) -> Option<ValueView> {
    if holds_key(doc, key) {
        Some(doc[index_of(doc, key)].1)
    } else {
        None
    }
}

/// The document with `value` set under `key`: an entry that is there is
/// overwritten where it stands, a new one goes to the end.
pub open spec fn assigned(doc: DocumentView, key: Seq<char>, value: ValueView) -> DocumentView {
    if holds_key(doc, key) {
        doc.update(index_of(doc, key), (key, value))
    } else {
        doc.push((key, value))
    }
}

/// The name ends in `[]`.
pub open spec fn is_array_name(name: Seq<char>) -> bool {
    name.len() >= 2 && name[name.len() - 2] == '[' && name[name.len() - 1] == ']'
}

/// The name without its last two characters.
pub open spec fn array_key(name: Seq<char>) -> Seq<char> {
    name.subrange(0, name.len() - 2)
}

/// The sequence that a key holds once `value` has been appended: the one
/// that was there with `value` behind it, or, where none was there, `value`
/// alone.
pub open spec fn extended(current: Option<ValueView>, value: ValueView) -> ValueView {
    match current {
        Some(ValueView::Sequence(items)) => ValueView::Sequence(items.push(value)),
        _ => ValueView::Sequence(seq![value]),
    }
}

/// The document after one field has been merged into it.
///
/// A name that ends in `[]` appends `value` to the sequence under the name
/// without that suffix. Any other name sets `value` under the name itself,
/// so that of two fields with one such name the later one wins.
pub open spec fn merged(doc: DocumentView, name: Seq<char>, value: ValueView) -> DocumentView {
    if is_array_name(name) {
        let key = array_key(name);
        assigned(doc, key, extended(value_at(doc, key), value))
    } else {
        assigned(doc, name, value)
    }
}

/// The views of a vector of entries, entry by entry.
pub open spec fn entries_view(entries: Seq<(String, Value)>) -> DocumentView {
    Seq::new(entries.len(), |i: int| (entries[i].0@, entries[i].1@))
}

/// Under distinct keys, an entry's key is found where the entry stands.
pub proof fn lemma_index_of(doc: DocumentView, i: int)
    requires
        distinct_keys(doc),
        0 <= i < doc.len(),
    ensures
        holds_key(doc, doc[i].0),
        index_of(doc, doc[i].0) == i,
{
    let key = doc[i].0;
    assert(doc[i].0 == key);
    let j = index_of(doc, key);
    assert(0 <= j < doc.len() && doc[j].0 == key);
}

/// Setting a value keeps the keys distinct.
pub proof fn lemma_assigned_distinct(doc: DocumentView, key: Seq<char>, value: ValueView)
    requires
        distinct_keys(doc),
    ensures
        distinct_keys(assigned(doc, key, value)),
{
    let next = assigned(doc, key, value);
    if holds_key(doc, key) {
        let at = index_of(doc, key);
        assert forall|i: int, j: int| 0 <= i < next.len() && 0 <= j < next.len() && i != j implies (
        #[trigger] next[i]).0 != (#[trigger] next[j]).0 by {
            assert(next[i].0 == doc[i].0);
            assert(next[j].0 == doc[j].0);
        }
    } else {
        assert forall|i: int, j: int| 0 <= i < next.len() && 0 <= j < next.len() && i != j implies (
        #[trigger] next[i]).0 != (#[trigger] next[j]).0 by {
            if i < doc.len() {
                assert(next[i] == doc[i]);
            }
            if j < doc.len() {
                assert(next[j] == doc[j]);
            }
        }
    }
}

/// Merging a field into a document that holds no key twice gives such a
/// document again.
pub proof fn law_merge_keeps_keys_distinct(doc: DocumentView, name: Seq<char>, value: ValueView)
    requires
        distinct_keys(doc),
    ensures
        distinct_keys(merged(doc, name, value)),
{
    if is_array_name(name) {
        let key = array_key(name);
        lemma_assigned_distinct(doc, key, extended(value_at(doc, key), value));
    } else {
        lemma_assigned_distinct(doc, name, value);
    }
}

/// After a value is set under a key, the key holds that value, and every
/// other key holds what it held.
pub proof fn lemma_assigned_value(
    doc: DocumentView,
    key: Seq<char>,
    value: ValueView,
    other: Seq<char>,
)
    requires
        distinct_keys(doc),
    ensures
        value_at(assigned(doc, key, value), key) == Some(value),
        other != key ==> value_at(assigned(doc, key, value), other) == value_at(doc, other),
{
    let next = assigned(doc, key, value);
    lemma_assigned_distinct(doc, key, value);
    let at = if holds_key(doc, key) {
        index_of(doc, key)
    } else {
        doc.len() as int
    };
    assert(next[at] == (key, value));
    lemma_index_of(next, at);
    if other != key {
        if holds_key(doc, other) {
            let i = index_of(doc, other);
            assert(next[i] == doc[i]);
            lemma_index_of(doc, i);
            lemma_index_of(next, i);
        } else if holds_key(next, other) {
            let i = index_of(next, other);
            assert(i != at);
            assert(doc[i].0 == other);
        }
    }
}

/// The items of the sequence under `key`; none where the key holds no
/// sequence.
pub open spec fn items_at(doc: DocumentView, key: Seq<char>) -> Seq<ValueView> {
    match value_at(doc, key) {
        Some(ValueView::Sequence(items)) => items,
        _ => Seq::empty(),
    }
}

/// The document after fields of one name have been merged into it, one for
/// each of `values`, in that order.
pub open spec fn merged_each(
    doc: DocumentView,
    name: Seq<char>,
    values: Seq<ValueView>,
) -> DocumentView
    decreases values.len(),
{
    if values.len() == 0 {
        doc
    } else {
        merged(merged_each(doc, name, values.drop_last()), name, values.last())
    }
}

/// Repeated fields of a name that ends in `[]` append: once one or more of
/// them are merged, the name without the suffix holds one sequence, made
/// of the items that it held before and of the fields' values behind
/// them, in the order of arrival. No other key changes.
pub proof fn law_array_fields_append(
    doc: DocumentView,
    name: Seq<char>,
    values: Seq<ValueView>,
    other: Seq<char>,
)
    requires
        distinct_keys(doc),
        is_array_name(name),
        values.len() > 0,
    ensures
        distinct_keys(merged_each(doc, name, values)),
        value_at(merged_each(doc, name, values), array_key(name)) == Some(
            ValueView::Sequence(items_at(doc, array_key(name)) + values),
        ),
        other != array_key(name) ==> value_at(merged_each(doc, name, values), other) == value_at(
            doc,
            other,
        ),
    decreases values.len(),
{
    let key = array_key(name);
    let earlier = merged_each(doc, name, values.drop_last());
    let appended = extended(value_at(earlier, key), values.last());
    if values.len() == 1 {
        assert(values.drop_last() =~= Seq::<ValueView>::empty());
        assert(earlier == doc);
        assert(items_at(doc, key) + values =~= items_at(doc, key).push(values.last()));
    } else {
        law_array_fields_append(doc, name, values.drop_last(), other);
        assert(items_at(doc, key) + values =~= (items_at(doc, key) + values.drop_last()).push(
            values.last(),
        ));
    }
    lemma_assigned_distinct(earlier, key, appended);
    lemma_assigned_value(earlier, key, appended, other);
}

/// Repeated fields of a name that does not end in `[]` overwrite: the
/// later one wins, and the earlier one leaves no trace.
pub proof fn law_last_write_wins(
    doc: DocumentView,
    name: Seq<char>,
    first: ValueView,
    second: ValueView,
)
    requires
        distinct_keys(doc),
        !is_array_name(name),
    ensures
        merged(merged(doc, name, first), name, second) == merged(doc, name, second),
        value_at(merged(merged(doc, name, first), name, second), name) == Some(second),
{
    let once = merged(doc, name, first);
    lemma_assigned_distinct(doc, name, first);
    let at = if holds_key(doc, name) {
        index_of(doc, name)
    } else {
        doc.len() as int
    };
    assert(once[at] == (name, first));
    lemma_index_of(once, at);
    assert(merged(once, name, second) =~= merged(doc, name, second));
    lemma_assigned_value(doc, name, second, name);
}

/// The key that an array name stands for: the name without its `[]`, where
/// it ends in that.
pub fn array_key_of(name: &str) -> (key: Option<String>)
    ensures
        match key {
            Some(k) => is_array_name(name@) && k@ == array_key(name@),
            None => !is_array_name(name@),
        },
{
    let n = name.unicode_len();
    if n >= 2 && name.get_char(n - 2) == '[' && name.get_char(n - 1) == ']' {
        Some(name.substring_char(0, n - 2).to_owned())
    } else {
        None
    }
}

/// A structured document: values under string keys, no key twice.
///
/// It starts empty, takes one field after another through [`Document::merge`],
/// and is read once all fields are in.
#[derive(Debug, PartialEq, Eq)]
pub struct Document {
    entries: Vec<(String, Value)>,
}

impl View for Document {
    type V = DocumentView;

    closed spec fn view(&self) -> DocumentView {
        entries_view(self.entries@)
    }
}

impl Document {
    #[verifier::type_invariant]
    spec fn keys_are_distinct(self) -> bool {
        distinct_keys(entries_view(self.entries@))
    }

    /// The empty document.
    pub fn new() -> (doc: Document)
        ensures
            doc@ == Seq::<(Seq<char>, ValueView)>::empty(),
    {
        Document { entries: Vec::new() }
    }

    /// The number of keys.
    pub fn len(&self) -> (n: usize)
        ensures
            n == self@.len(),
            distinct_keys(self@),
    {
        proof {
            use_type_invariant(self);
        }
        self.entries.len()
    }

    /// The entries, each a key with its value, in the order in which the
    /// keys first arrived.
    pub fn entries(&self) -> (entries: &Vec<(String, Value)>)
        ensures
            entries_view(entries@) == self@,
            distinct_keys(self@),
    {
        proof {
            use_type_invariant(self);
        }
        &self.entries
    }

    /// Takes the document apart into its entries.
    pub fn into_entries(self) -> (entries: Vec<(String, Value)>)
        ensures
            entries_view(entries@) == self@,
            distinct_keys(self@),
    {
        proof {
            use_type_invariant(&self);
        }
        self.entries
    }

    /// Where the entry under `key` stands, if there is one.
    fn position(&self, key: &String) -> (at: Option<usize>)
        ensures
            distinct_keys(self@),
            match at {
                Some(i) => holds_key(self@, key@) && i == index_of(self@, key@) && i < self@.len(),
                None => !holds_key(self@, key@),
            },
    {
        proof {
            use_type_invariant(self);
        }
        let mut i: usize = 0;
        while i < self.entries.len()
            invariant
                i <= self.entries.len(),
                self@ == entries_view(self.entries@),
                distinct_keys(self@),
                forall|j: int| 0 <= j < i ==> (#[trigger] self@[j]).0 != key@,
            decreases self.entries.len() - i,
        {
            if self.entries[i].0 == *key {
                proof {
                    lemma_index_of(self@, i as int);
                }
                return Some(i);
            }
            i += 1;
        }
        None
    }

    /// Sets `value` under `key`: an entry that is there is overwritten
    /// where it stands, a new one goes to the end.
    pub fn set(&mut self, key: String, value: Value)
        ensures
            final(self)@ == assigned(old(self)@, key@, value@),
    {
        let at = self.position(&key);
        let ghost before = self@;
        let mut entries: Vec<(String, Value)> = Vec::new();
        core::mem::swap(&mut entries, &mut self.entries);
        match at {
            Some(i) => {
                entries.set(i, (key, value));
            },
            None => {
                entries.push((key, value));
            },
        }
        proof {
            lemma_assigned_distinct(before, key@, value@);
            assert(entries_view(entries@) =~= assigned(before, key@, value@));
        }
        self.entries = entries;
    }

    /// Appends `value` to the sequence under `key`.
    fn append(&mut self, key: String, value: Value)
        ensures
            final(self)@ == assigned(
                old(self)@,
                key@,
                extended(value_at(old(self)@, key@), value@),
            ),
    {
        let at = self.position(&key);
        let ghost before = self@;
        let ghost next = extended(value_at(before, key@), value@);
        let mut entries: Vec<(String, Value)> = Vec::new();
        core::mem::swap(&mut entries, &mut self.entries);
        match at {
            Some(i) => {
                let ghost stored = entries@;
                assert(before[i as int] == (stored[i as int].0@, stored[i as int].1@));
                let (_, current) = entries.remove(i);
                let mut items: Vec<Value> = match current {
                    Value::Sequence(items) => items,
                    _ => Vec::new(),
                };
                let ghost earlier = items@;
                items.push(value);
                proof {
                    assert(views_of(items@) =~= views_of(earlier).push(value@));
                    assert(views_of(Seq::<Value>::empty()).push(value@) =~= seq![value@]);
                    assert(Value::Sequence(items)@ == next);
                }
                entries.insert(i, (key, Value::Sequence(items)));
                proof {
                    assert forall|j: int| 0 <= j < entries@.len() && j != i implies entries@[j]
                        == stored[j] by {}
                }
            },
            None => {
                let mut items: Vec<Value> = Vec::new();
                items.push(value);
                proof {
                    assert(views_of(items@) =~= seq![value@]);
                }
                entries.push((key, Value::Sequence(items)));
            },
        }
        proof {
            lemma_assigned_distinct(before, key@, next);
            assert(entries_view(entries@) =~= assigned(before, key@, next));
        }
        self.entries = entries;
    }

    /// Merges one field into the document.
    ///
    /// A name that ends in `[]` appends `value` to the sequence under the
    /// name without that suffix; where that key holds no sequence yet, one
    /// is started there. Any other name sets `value` under the name itself
    /// and overwrites what was there: the last write wins.
    pub fn merge(&mut self, name: String, value: Value)
        ensures
            final(self)@ == merged(old(self)@, name@, value@),
    {
        match array_key_of(name.as_str()) {
            Some(key) => self.append(key, value),
            None => self.set(name, value),
        }
    }

    /// The value under `key`, if there is one.
    pub fn get(&self, key: &str) -> (value: Option<&Value>)
        ensures
            match value {
                Some(v) => value_at(self@, key@) == Some(v@),
                None => value_at(self@, key@) is None,
            },
    {
        let key = key.to_owned();
        match self.position(&key) {
            Some(i) => Some(&self.entries[i].1),
            None => None,
        }
    }
}

} // verus!
