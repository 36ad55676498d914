//! What holds of resolution and generation on every input.

use vstd::prelude::*;
use crate::attrs::{
    duplicate_report,
    lemma_table_concat,
    recognized,
    resolve,
    table,
    take_attrs,
    take_entries,
    take_entry,
    Args,
    Attribute,
    Entries,
    Meta,
    Report,
};
use crate::error::Error;
use crate::fragment::{ArgView, BindingView, Fragment, FragmentView};
use crate::impl_struct::{
    format_keys,
    ignore_indices,
    ignore_list,
    merged,
    named_arg,
    named_field_keys,
    named_keys,
    named_parts,
    position_name,
    unnamed_keys,
    unnamed_parts,
    value_of,
    value_or,
    Scope,
};
use crate::shape::{Fields, NamedField, UnnamedField};

verus! {

/// Whether an entry is a key with a literal and its key is `key`.
pub open spec fn names(entry: Meta, key: Seq<char>) -> bool {
    match entry {
        Meta::NameValue { path, .. } => path@ == key,
        _ => false,
    }
}

/// The entry at index `j` of annotation `a` of a list, where that annotation
/// counts under `name` and its entries could be read.
pub open spec fn entry_at(name: Seq<char>, attrs: Seq<Attribute>, a: int, j: int) -> Option<Meta> {
    if 0 <= a < attrs.len() && attrs[a].name@ == name {
        match attrs[a].args {
            Args::Parsed(entries) => if 0 <= j < entries@.len() {
                Some(entries@[j])
            } else {
                None
            },
            Args::Malformed(_) => None,
        }
    } else {
        None
    }
}

/// An entry with a key that is not recognized is refused at the place of
/// the key, whatever was gathered before it.
pub proof fn lemma_unknown_key_entry(keys: Seq<&str>, acc: Entries, entry: Meta)
    requires
        entry is NameValue,
        !recognized(keys, entry->path@),
    ensures
        take_entry(keys, acc, entry) == Err::<Entries, Report>(
            seq![(entry->path_span, "unknown attribute argument"@)],
        ),
{
}

proof fn lemma_entries_fail_at(keys: Seq<&str>, acc: Entries, entries: Seq<Meta>, from: int, j: int)
    requires
        0 <= from <= j < entries.len(),
        forall|before: Entries| (#[trigger] take_entry(keys, before, entries[j])) is Err,
    ensures
        take_entries(keys, acc, entries, from) is Err,
    decreases j - from,
{
    if from < j {
        match take_entry(keys, acc, entries[from]) {
            Err(_) => {},
            Ok(next) => lemma_entries_fail_at(keys, next, entries, from + 1, j),
        }
    }
}

proof fn lemma_attrs_fail_at(
    name: Seq<char>,
    keys: Seq<&str>,
    acc: Entries,
    attrs: Seq<Attribute>,
    from: int,
    a: int,
)
    requires
        0 <= from <= a < attrs.len(),
        attrs[a].name@ == name,
        attrs[a].args is Parsed,
        forall|before: Entries| (#[trigger] take_entries(keys, before, attrs[a].args->Parsed_0@, 0)) is Err,
    ensures
        take_attrs(name, keys, acc, attrs, from) is Err,
    decreases a - from,
{
    if from < a {
        if attrs[from].name@ != name {
            lemma_attrs_fail_at(name, keys, acc, attrs, from + 1, a);
        } else {
            match attrs[from].args {
                Args::Malformed(_) => {},
                Args::Parsed(entries) => match take_entries(keys, acc, entries@, 0) {
                    Err(_) => {},
                    Ok(next) => lemma_attrs_fail_at(name, keys, next, attrs, from + 1, a),
                },
            }
        }
    }
}

/// A list that holds, in an annotation under the marker, an entry with a key
/// that is not recognized does not resolve.
pub proof fn lemma_unknown_key_fails(
    name: Seq<char>,
    keys: Seq<&str>,
    attrs: Seq<Attribute>,
    a: int,
    j: int,
)
    requires
        entry_at(name, attrs, a, j) is Some,
        entry_at(name, attrs, a, j)->Some_0 is NameValue,
        !recognized(keys, entry_at(name, attrs, a, j)->Some_0->path@),
    ensures
        resolve(name, keys, attrs) is Err,
{
    let entries = attrs[a].args->Parsed_0@;
    assert forall|before: Entries| (#[trigger] take_entries(keys, before, entries, 0)) is Err by {
        lemma_entries_fail_at(keys, before, entries, 0, j);
    }
    lemma_attrs_fail_at(name, keys, Seq::empty(), attrs, 0, a);
}

/// Where the first entry under the marker has a key that is not recognized,
/// the list fails with exactly that complaint, at the place of the key.
pub proof fn lemma_unknown_key_first(name: Seq<char>, keys: Seq<&str>, attrs: Seq<Attribute>)
    requires
        entry_at(name, attrs, 0, 0) is Some,
        entry_at(name, attrs, 0, 0)->Some_0 is NameValue,
        !recognized(keys, entry_at(name, attrs, 0, 0)->Some_0->path@),
    ensures
        resolve(name, keys, attrs) == Err::<Entries, Report>(
            seq![(entry_at(name, attrs, 0, 0)->Some_0->path_span, "unknown attribute argument"@)],
        ),
{
}

/// The keys recognized in the scope of a shape.
pub open spec fn shape_keys(fields: Fields) -> Seq<&'static str> {
    match fields {
        Fields::Named(_) => named_keys(),
        Fields::Unnamed(_) => unnamed_keys(),
        Fields::Unit => format_keys(),
    }
}

proof fn lemma_merged_fails_at(
    name: Seq<char>,
    keys: Seq<&str>,
    acc: Entries,
    lists: Seq<Seq<Attribute>>,
    from: int,
    l: int,
)
    requires
        0 <= from <= l < lists.len(),
        resolve(name, keys, lists[l]) is Err,
    ensures
        merged(name, keys, acc, lists, from) is Err,
    decreases l - from,
{
    if from < l {
        match resolve(name, keys, lists[from]) {
            Err(_) => {},
            Ok(es) => lemma_merged_fails_at(name, keys, acc + es, lists, from + 1, l),
        }
    }
}

/// Whatever the kind of the shape, nothing is generated where one of the
/// annotation lists above it holds, under the marker, a key that the shape
/// does not recognize.
pub proof fn lemma_unknown_key_in_scope(scope: Scope, fields: Fields, l: int, a: int, j: int)
    requires
        0 <= l < scope.lists.len(),
        entry_at(scope.marker, scope.lists[l], a, j) is Some,
        entry_at(scope.marker, scope.lists[l], a, j)->Some_0 is NameValue,
        !recognized(shape_keys(fields), entry_at(scope.marker, scope.lists[l], a, j)->Some_0->path@),
    ensures
        scope.fragment(fields) is Err,
{
    lemma_unknown_key_fails(scope.marker, shape_keys(fields), scope.lists[l], a, j);
    lemma_merged_fails_at(scope.marker, shape_keys(fields), Seq::empty(), scope.lists, 0, l);
}

/// A key that the entries gathered so far already hold is refused with the
/// report of both places: first that of the new value, then that of the
/// one before.
pub proof fn lemma_duplicate_entry(keys: Seq<&str>, acc: Entries, entry: Meta)
    requires
        entry is NameValue,
        entry->value is Some,
        recognized(keys, entry->path@),
        table(acc).contains_key(entry->path@),
    ensures
        take_entry(keys, acc, entry) == Err::<Entries, Report>(
            duplicate_report(entry->path@, entry->value_span, table(acc)[entry->path@].0),
        ),
{
}

proof fn lemma_held_key_fails(
    keys: Seq<&str>,
    acc: Entries,
    entries: Seq<Meta>,
    from: int,
    j: int,
    key: Seq<char>,
)
    requires
        0 <= from <= j < entries.len(),
        names(entries[j], key),
        table(acc).contains_key(key),
    ensures
        take_entries(keys, acc, entries, from) is Err,
    decreases j - from,
{
    if from < j {
        match take_entry(keys, acc, entries[from]) {
            Err(_) => {},
            Ok(next) => {
                assert(next.drop_last() =~= acc);
                lemma_held_key_fails(keys, next, entries, from + 1, j, key);
            },
        }
    }
}

proof fn lemma_twice_fails(
    keys: Seq<&str>,
    acc: Entries,
    entries: Seq<Meta>,
    from: int,
    i: int,
    j: int,
    key: Seq<char>,
)
    requires
        0 <= from <= i < j < entries.len(),
        names(entries[i], key),
        names(entries[j], key),
    ensures
        take_entries(keys, acc, entries, from) is Err,
    decreases i - from,
{
    match take_entry(keys, acc, entries[from]) {
        Err(_) => {},
        Ok(next) => {
            if from < i {
                lemma_twice_fails(keys, next, entries, from + 1, i, j, key);
            } else {
                assert(next.drop_last() =~= acc);
                assert(next.last().0 == key);
                lemma_held_key_fails(keys, next, entries, from + 1, j, key);
            }
        },
    }
}

/// A list that holds the same key twice in one annotation under the marker
/// does not resolve.
pub proof fn lemma_same_key_twice_fails(
    name: Seq<char>,
    keys: Seq<&str>,
    attrs: Seq<Attribute>,
    a: int,
    i: int,
    j: int,
    key: Seq<char>,
)
    requires
        i < j,
        entry_at(name, attrs, a, i) is Some,
        entry_at(name, attrs, a, j) is Some,
        names(entry_at(name, attrs, a, i)->Some_0, key),
        names(entry_at(name, attrs, a, j)->Some_0, key),
    ensures
        resolve(name, keys, attrs) is Err,
{
    let entries = attrs[a].args->Parsed_0@;
    assert forall|before: Entries| (#[trigger] take_entries(keys, before, entries, 0)) is Err by {
        lemma_twice_fails(keys, before, entries, 0, i, j, key);
    }
    lemma_attrs_fail_at(name, keys, Seq::empty(), attrs, 0, a);
}

proof fn lemma_entries_keep(keys: Seq<&str>, acc: Entries, entries: Seq<Meta>, from: int, key: Seq<char>)
    requires
        0 <= from,
        table(acc).contains_key(key),
        take_entries(keys, acc, entries, from) is Ok,
    ensures
        table(take_entries(keys, acc, entries, from)->Ok_0).contains_key(key),
    decreases entries.len() - from,
{
    if from < entries.len() {
        let next = take_entry(keys, acc, entries[from])->Ok_0;
        assert(next.drop_last() =~= acc);
        lemma_entries_keep(keys, next, entries, from + 1, key);
    }
}

proof fn lemma_entries_hold(
    keys: Seq<&str>,
    acc: Entries,
    entries: Seq<Meta>,
    from: int,
    i: int,
    key: Seq<char>,
)
    requires
        0 <= from <= i < entries.len(),
        names(entries[i], key),
        take_entries(keys, acc, entries, from) is Ok,
    ensures
        table(take_entries(keys, acc, entries, from)->Ok_0).contains_key(key),
    decreases i - from,
{
    let next = take_entry(keys, acc, entries[from])->Ok_0;
    if from < i {
        lemma_entries_hold(keys, next, entries, from + 1, i, key);
    } else {
        assert(next.drop_last() =~= acc);
        assert(next.last().0 == key);
        lemma_entries_keep(keys, next, entries, from + 1, key);
    }
}

proof fn lemma_attrs_held_key_fails(
    name: Seq<char>,
    keys: Seq<&str>,
    acc: Entries,
    attrs: Seq<Attribute>,
    from: int,
    a: int,
    j: int,
    key: Seq<char>,
)
    requires
        0 <= from <= a,
        table(acc).contains_key(key),
        entry_at(name, attrs, a, j) is Some,
        names(entry_at(name, attrs, a, j)->Some_0, key),
    ensures
        take_attrs(name, keys, acc, attrs, from) is Err,
    decreases a - from,
{
    if attrs[from].name@ != name {
        lemma_attrs_held_key_fails(name, keys, acc, attrs, from + 1, a, j, key);
    } else {
        match attrs[from].args {
            Args::Malformed(_) => {},
            Args::Parsed(entries) => {
                if from == a {
                    lemma_held_key_fails(keys, acc, entries@, 0, j, key);
                } else {
                    match take_entries(keys, acc, entries@, 0) {
                        Err(_) => {},
                        Ok(next) => {
                            lemma_entries_keep(keys, acc, entries@, 0, key);
                            lemma_attrs_held_key_fails(name, keys, next, attrs, from + 1, a, j, key);
                        },
                    }
                }
            },
        }
    }
}

proof fn lemma_attrs_twice_fail(
    name: Seq<char>,
    keys: Seq<&str>,
    acc: Entries,
    attrs: Seq<Attribute>,
    from: int,
    a: int,
    i: int,
    b: int,
    j: int,
    key: Seq<char>,
)
    requires
        0 <= from <= a < b,
        entry_at(name, attrs, a, i) is Some,
        entry_at(name, attrs, b, j) is Some,
        names(entry_at(name, attrs, a, i)->Some_0, key),
        names(entry_at(name, attrs, b, j)->Some_0, key),
    ensures
        take_attrs(name, keys, acc, attrs, from) is Err,
    decreases a - from,
{
    if attrs[from].name@ != name {
        lemma_attrs_twice_fail(name, keys, acc, attrs, from + 1, a, i, b, j, key);
    } else {
        match attrs[from].args {
            Args::Malformed(_) => {},
            Args::Parsed(entries) => match take_entries(keys, acc, entries@, 0) {
                Err(_) => {},
                Ok(next) => {
                    if from == a {
                        lemma_entries_hold(keys, acc, entries@, 0, i, key);
                        lemma_attrs_held_key_fails(name, keys, next, attrs, from + 1, b, j, key);
                    } else {
                        lemma_attrs_twice_fail(name, keys, next, attrs, from + 1, a, i, b, j, key);
                    }
                },
            },
        }
    }
}

/// A list that holds the same key in two annotations under the marker does
/// not resolve: what an earlier annotation of the list has set, a later one
/// of the same list cannot set again.
pub proof fn lemma_same_key_in_two_annotations_fails(
    name: Seq<char>,
    keys: Seq<&str>,
    attrs: Seq<Attribute>,
    a: int,
    i: int,
    b: int,
    j: int,
    key: Seq<char>,
)
    requires
        a < b,
        entry_at(name, attrs, a, i) is Some,
        entry_at(name, attrs, b, j) is Some,
        names(entry_at(name, attrs, a, i)->Some_0, key),
        names(entry_at(name, attrs, b, j)->Some_0, key),
    ensures
        resolve(name, keys, attrs) is Err,
{
    lemma_attrs_twice_fail(name, keys, Seq::empty(), attrs, 0, a, i, b, j, key);
}

/// A list of one annotation that gives one recognized key two string values
/// fails with the report of both places: the later value first.
pub proof fn lemma_same_key_twice_report(
    name: Seq<char>,
    keys: Seq<&str>,
    attrs: Seq<Attribute>,
    first: Meta,
    second: Meta,
)
    requires
        attrs.len() == 1,
        attrs[0].name@ == name,
        attrs[0].args is Parsed,
        attrs[0].args->Parsed_0@ == seq![first, second],
        first is NameValue,
        second is NameValue,
        first->value is Some,
        second->value is Some,
        first->path@ == second->path@,
        recognized(keys, first->path@),
    ensures
        resolve(name, keys, attrs) == Err::<Entries, Report>(
            duplicate_report(first->path@, second->value_span, first->value_span),
        ),
{
    let entries = attrs[0].args->Parsed_0@;
    let empty = Seq::<(Seq<char>, crate::error::Span, Seq<char>)>::empty();
    let key = first->path@;
    let one = empty.push((key, first->value_span, first->value->Some_0@));
    assert(entries[0] == first);
    assert(entries[1] == second);
    assert(table(empty) =~= Map::empty());
    assert(take_entry(keys, empty, first) == Ok::<Entries, Report>(one));
    assert(one.drop_last() =~= empty);
    assert(table(one).contains_key(key));
    assert(table(one)[key].0 == first->value_span);
    lemma_duplicate_entry(keys, one, second);
    assert(take_entries(keys, one, entries, 1) == Err::<Entries, Report>(
        duplicate_report(key, second->value_span, first->value_span),
    ));
    assert(take_entries(keys, empty, entries, 0) == take_entries(keys, one, entries, 1));
}

/// Whether an entry is a recognized key with a string value.
pub open spec fn well_formed(keys: Seq<&str>, entry: Meta) -> bool {
    &&& entry is NameValue
    &&& entry->value is Some
    &&& recognized(keys, entry->path@)
}

/// What a well-formed entry adds to a table: key, place of the value, value.
pub open spec fn entry_of(entry: Meta) -> (Seq<char>, crate::error::Span, Seq<char>) {
    (entry->path@, entry->value_span, entry->value->Some_0@)
}

/// A table holds exactly the keys of its entries.
pub proof fn lemma_table_keys(entries: Entries, key: Seq<char>)
    ensures
        table(entries).contains_key(key) <==> exists|i: int|
            0 <= i < entries.len() && (#[trigger] entries[i]).0 == key,
    decreases entries.len(),
{
    if entries.len() > 0 {
        lemma_table_keys(entries.drop_last(), key);
        if table(entries).contains_key(key) {
            if entries.last().0 == key {
                assert(entries[entries.len() - 1].0 == key);
            } else {
                let i = choose|i: int|
                    0 <= i < entries.drop_last().len() && (#[trigger] entries.drop_last()[i]).0 == key;
                assert(entries[i].0 == key);
            }
        }
        if exists|i: int| 0 <= i < entries.len() && (#[trigger] entries[i]).0 == key {
            let i = choose|i: int| 0 <= i < entries.len() && (#[trigger] entries[i]).0 == key;
            if i < entries.len() - 1 {
                assert(entries.drop_last()[i].0 == key);
            }
        }
    }
}

/// Where no key occurs twice among the entries, the table holds for each
/// entry its own place and value.
pub proof fn lemma_table_of_distinct(entries: Entries, j: int)
    requires
        0 <= j < entries.len(),
        forall|a: int, b: int| 0 <= a < b < entries.len() ==> entries[a].0 != entries[b].0,
    ensures
        table(entries).contains_key(entries[j].0),
        table(entries)[entries[j].0] == (entries[j].1, entries[j].2),
    decreases entries.len(),
{
    if j < entries.len() - 1 {
        let rest = entries.drop_last();
        assert forall|a: int, b: int| 0 <= a < b < rest.len() implies rest[a].0 != rest[b].0 by {
            assert(rest[a] == entries[a]);
            assert(rest[b] == entries[b]);
        }
        lemma_table_of_distinct(rest, j);
        assert(rest[j] == entries[j]);
        assert(entries.last().0 != entries[j].0);
    }
}

proof fn lemma_entries_resolve(keys: Seq<&str>, entries: Seq<Meta>, from: int)
    requires
        0 <= from <= entries.len(),
        forall|j: int| 0 <= j < entries.len() ==> well_formed(keys, #[trigger] entries[j]),
        forall|a: int, b: int|
            0 <= a < b < entries.len() ==> (#[trigger] entries[a])->path@ != (#[trigger] entries[b])->path@,
    ensures
        take_entries(keys, entries.take(from).map_values(|e: Meta| entry_of(e)), entries, from) == Ok::<
            Entries,
            Report,
        >(entries.map_values(|e: Meta| entry_of(e))),
    decreases entries.len() - from,
{
    let acc = entries.take(from).map_values(|e: Meta| entry_of(e));
    if from >= entries.len() {
        assert(entries.take(from) =~= entries);
    } else {
        let entry = entries[from];
        assert(well_formed(keys, entry));
        lemma_table_keys(acc, entry->path@);
        if table(acc).contains_key(entry->path@) {
            let i = choose|i: int| 0 <= i < acc.len() && (#[trigger] acc[i]).0 == entry->path@;
            assert(acc[i] == entry_of(entries[i]));
            assert(entries[i]->path@ != entries[from]->path@);
        }
        assert(acc.push(entry_of(entry)) =~= entries.take(from + 1).map_values(|e: Meta| entry_of(e)));
        lemma_entries_resolve(keys, entries, from + 1);
    }
}

/// A list of one annotation under the marker whose entries are recognized
/// keys with string values, no key twice, resolves: to exactly its entries,
/// and the table holds for each key the place and text of its value.
pub proof fn lemma_distinct_keys_resolve(name: Seq<char>, keys: Seq<&str>, attrs: Seq<Attribute>, j: int)
    requires
        attrs.len() == 1,
        attrs[0].name@ == name,
        attrs[0].args is Parsed,
        forall|k: int|
            0 <= k < attrs[0].args->Parsed_0@.len() ==> well_formed(
                keys,
                #[trigger] attrs[0].args->Parsed_0@[k],
            ),
        forall|a: int, b: int|
            0 <= a < b < attrs[0].args->Parsed_0@.len() ==> (#[trigger] attrs[0].args->Parsed_0@[a])->path@
                != (#[trigger] attrs[0].args->Parsed_0@[b])->path@,
        0 <= j < attrs[0].args->Parsed_0@.len(),
    ensures
        resolve(name, keys, attrs) == Ok::<Entries, Report>(
            attrs[0].args->Parsed_0@.map_values(|e: Meta| entry_of(e)),
        ),
        table(resolve(name, keys, attrs)->Ok_0).contains_key(attrs[0].args->Parsed_0@[j]->path@),
        table(resolve(name, keys, attrs)->Ok_0)[attrs[0].args->Parsed_0@[j]->path@] == (
            attrs[0].args->Parsed_0@[j]->value_span,
            attrs[0].args->Parsed_0@[j]->value->Some_0@,
        ),
{
    let entries = attrs[0].args->Parsed_0@;
    let all = entries.map_values(|e: Meta| entry_of(e));
    assert(entries.take(0).map_values(|e: Meta| entry_of(e)) =~= Seq::empty());
    lemma_entries_resolve(keys, entries, 0);
    assert(take_attrs(name, keys, all, attrs, 1) == Ok::<Entries, Report>(all));
    assert forall|a: int, b: int| 0 <= a < b < all.len() implies all[a].0 != all[b].0 by {
        assert(all[a] == entry_of(entries[a]));
        assert(all[b] == entry_of(entries[b]));
    }
    lemma_table_of_distinct(all, j);
}

/// A key set in an outer and again in an inner scope is no duplicate: the
/// two lists resolve by themselves, and in the merged table the inner value
/// stands for every key that the inner list sets, the outer value for every
/// other.
pub proof fn lemma_inner_scope_wins(
    name: Seq<char>,
    keys: Seq<&str>,
    outer: Seq<Attribute>,
    inner: Seq<Attribute>,
    key: Seq<char>,
)
    requires
        resolve(name, keys, outer) is Ok,
        resolve(name, keys, inner) is Ok,
    ensures
        merged(name, keys, Seq::empty(), seq![outer, inner], 0) == Ok::<Entries, Report>(
            resolve(name, keys, outer)->Ok_0 + resolve(name, keys, inner)->Ok_0,
        ),
        ({
            let o = table(resolve(name, keys, outer)->Ok_0);
            let i = table(resolve(name, keys, inner)->Ok_0);
            let m = table(resolve(name, keys, outer)->Ok_0 + resolve(name, keys, inner)->Ok_0);
            &&& m.contains_key(key) == (o.contains_key(key) || i.contains_key(key))
            &&& i.contains_key(key) ==> m[key] == i[key]
            &&& !i.contains_key(key) && o.contains_key(key) ==> m[key] == o[key]
        }),
{
    let lists = seq![outer, inner];
    let es0 = resolve(name, keys, outer)->Ok_0;
    let es1 = resolve(name, keys, inner)->Ok_0;
    let empty = Seq::<(Seq<char>, crate::error::Span, Seq<char>)>::empty();
    assert(lists[0] == outer);
    assert(lists[1] == inner);
    assert(empty + es0 =~= es0);
    assert(merged(name, keys, es0 + es1, lists, 2) == Ok::<Entries, Report>(es0 + es1));
    assert(merged(name, keys, es0, lists, 1) == merged(name, keys, es0 + es1, lists, 2));
    assert(merged(name, keys, empty, lists, 0) == merged(name, keys, empty + es0, lists, 1));
    lemma_table_concat(es0, es1);
}

/// Whether the annotations of a named field resolve and, where the field
/// is kept, name a known mode or none.
pub open spec fn field_resolves(marker: Seq<char>, ignore: Seq<Seq<char>>, field: NamedField) -> bool {
    &&& resolve(marker, named_field_keys(), field.attrs@) is Ok
    &&& ignore.contains(field.name@) || named_arg(
        field.name@,
        table(resolve(marker, named_field_keys(), field.attrs@)->Ok_0),
    ) is Ok
}

/// The rendered value of a kept field whose annotations resolve.
pub open spec fn arg_of(marker: Seq<char>, field: NamedField) -> ArgView {
    named_arg(field.name@, table(resolve(marker, named_field_keys(), field.attrs@)->Ok_0))->Ok_0
}

/// The pattern of the fields from index `from` on: each by its name, bound
/// unless ignored.
pub open spec fn pattern_from(ignore: Seq<Seq<char>>, fields: Seq<NamedField>, from: int) -> Seq<BindingView>
    decreases fields.len() - from,
{
    if from < 0 || from >= fields.len() {
        Seq::empty()
    } else {
        seq![BindingView { name: fields[from].name@, bound: !ignore.contains(fields[from].name@) }]
            + pattern_from(ignore, fields, from + 1)
    }
}

/// The rendered values of the kept fields from index `from` on, in order.
pub open spec fn args_from(
    marker: Seq<char>,
    ignore: Seq<Seq<char>>,
    fields: Seq<NamedField>,
    from: int,
) -> Seq<ArgView>
    decreases fields.len() - from,
{
    if from < 0 || from >= fields.len() {
        Seq::empty()
    } else if ignore.contains(fields[from].name@) {
        args_from(marker, ignore, fields, from + 1)
    } else {
        seq![arg_of(marker, fields[from])] + args_from(marker, ignore, fields, from + 1)
    }
}

/// Where the annotations of every field resolve, the walk over the fields
/// yields every field in the pattern and every kept field among the
/// arguments, in order.
pub proof fn lemma_named_parts(
    marker: Seq<char>,
    ignore: Seq<Seq<char>>,
    fields: Seq<NamedField>,
    from: int,
    pattern: Seq<BindingView>,
    args: Seq<ArgView>,
)
    requires
        0 <= from,
        forall|i: int| from <= i < fields.len() ==> field_resolves(marker, ignore, #[trigger] fields[i]),
    ensures
        named_parts(marker, ignore, fields, from, pattern, args) == Ok::<
            (Seq<BindingView>, Seq<ArgView>),
            Report,
        >((pattern + pattern_from(ignore, fields, from), args + args_from(marker, ignore, fields, from))),
    decreases fields.len() - from,
{
    if from >= fields.len() {
        assert(pattern + pattern_from(ignore, fields, from) =~= pattern);
        assert(args + args_from(marker, ignore, fields, from) =~= args);
    } else {
        let field = fields[from];
        assert(field_resolves(marker, ignore, field));
        let kept = !ignore.contains(field.name@);
        let slot = BindingView { name: field.name@, bound: kept };
        let next_args = if kept {
            args.push(arg_of(marker, field))
        } else {
            args
        };
        lemma_named_parts(marker, ignore, fields, from + 1, pattern.push(slot), next_args);
        assert(pattern.push(slot) + pattern_from(ignore, fields, from + 1) =~= pattern
            + pattern_from(ignore, fields, from));
        assert(next_args + args_from(marker, ignore, fields, from + 1) =~= args + args_from(
            marker,
            ignore,
            fields,
            from,
        ));
    }
}

proof fn lemma_only_kept(
    marker: Seq<char>,
    ignore: Seq<Seq<char>>,
    fields: Seq<NamedField>,
    from: int,
    k: int,
)
    requires
        0 <= from,
        0 <= k < fields.len(),
        !ignore.contains(fields[k].name@),
        forall|i: int| 0 <= i < fields.len() && i != k ==> ignore.contains((#[trigger] fields[i]).name@),
    ensures
        args_from(marker, ignore, fields, from) == if from <= k {
            seq![arg_of(marker, fields[k])]
        } else {
            Seq::empty()
        },
    decreases fields.len() - from,
{
    if from < fields.len() {
        lemma_only_kept(marker, ignore, fields, from + 1, k);
        if from == k {
            assert(seq![arg_of(marker, fields[k])] + Seq::<ArgView>::empty() =~= seq![
                arg_of(marker, fields[k]),
            ]);
        } else {
            assert(ignore.contains(fields[from].name@));
        }
    }
}

proof fn lemma_kept_counts(
    marker: Seq<char>,
    ignore: Seq<Seq<char>>,
    fields: Seq<NamedField>,
    from: int,
    k: int,
)
    requires
        0 <= from <= k < fields.len(),
        !ignore.contains(fields[k].name@),
    ensures
        args_from(marker, ignore, fields, from).len() >= 1 + args_from(marker, ignore, fields, k + 1).len(),
    decreases k - from,
{
    if from < k {
        lemma_kept_counts(marker, ignore, fields, from + 1, k);
    }
}

/// Whether the scope of a shape with named fields resolves to a table with
/// neither `mode` nor `format`, and the annotations of every field resolve.
pub open spec fn plain_named(scope: Scope, fields: Seq<NamedField>) -> bool {
    &&& scope.scope_entries(named_keys()) is Ok
    &&& !table(scope.scope_entries(named_keys())->Ok_0).contains_key("mode"@)
    &&& !table(scope.scope_entries(named_keys())->Ok_0).contains_key("format"@)
    &&& forall|i: int|
        0 <= i < fields.len() ==> field_resolves(scope.marker, ignored(scope), #[trigger] fields[i])
}

/// The names that the scope of a shape with named fields ignores.
pub open spec fn ignored(scope: Scope) -> Seq<Seq<char>> {
    ignore_list(value_of(table(scope.scope_entries(named_keys())->Ok_0), "ignore"@))
}

/// A shape with named fields of which exactly one, the field at `k`, is not
/// ignored, and without a `format` of its own, generates: every field
/// stands in the pattern, and what is rendered is that one field alone.
pub proof fn lemma_single_kept_field(scope: Scope, fields: Seq<NamedField>, k: int)
    requires
        plain_named(scope, fields),
        0 <= k < fields.len(),
        !ignored(scope).contains(fields[k].name@),
        forall|i: int|
            0 <= i < fields.len() && i != k ==> ignored(scope).contains((#[trigger] fields[i]).name@),
    ensures
        scope.named_fragment(fields) == Ok::<FragmentView, Report>(
            FragmentView::Single {
                pattern: pattern_from(ignored(scope), fields, 0),
                arg: arg_of(scope.marker, fields[k]),
            },
        ),
        arg_of(scope.marker, fields[k]).name == fields[k].name@,
{
    let ignore = ignored(scope);
    lemma_named_parts(scope.marker, ignore, fields, 0, Seq::empty(), Seq::empty());
    lemma_only_kept(scope.marker, ignore, fields, 0, k);
    assert(Seq::<BindingView>::empty() + pattern_from(ignore, fields, 0) =~= pattern_from(
        ignore,
        fields,
        0,
    ));
    assert(Seq::<ArgView>::empty() + args_from(scope.marker, ignore, fields, 0) =~= args_from(
        scope.marker,
        ignore,
        fields,
        0,
    ));
    assert(field_resolves(scope.marker, ignore, fields[k]));
}

/// A shape with named fields of which two or more are not ignored, and
/// without a `format` of its own, fails with the complaint of the missing
/// format at the identifier of the shape.
pub proof fn lemma_many_kept_fields(scope: Scope, fields: Seq<NamedField>, j: int, k: int)
    requires
        plain_named(scope, fields),
        0 <= j < k < fields.len(),
        !ignored(scope).contains(fields[j].name@),
        !ignored(scope).contains(fields[k].name@),
    ensures
        scope.named_fragment(fields) == Err::<FragmentView, Report>(
            seq![(scope.span, "Missing #[format(...)] for struct with multiple fields"@)],
        ),
{
    let ignore = ignored(scope);
    lemma_named_parts(scope.marker, ignore, fields, 0, Seq::empty(), Seq::empty());
    lemma_kept_counts(scope.marker, ignore, fields, 0, j);
    lemma_kept_counts(scope.marker, ignore, fields, j + 1, k);
    assert(Seq::<ArgView>::empty() + args_from(scope.marker, ignore, fields, 0) =~= args_from(
        scope.marker,
        ignore,
        fields,
        0,
    ));
}

proof fn lemma_none_kept(marker: Seq<char>, ignore: Seq<Seq<char>>, fields: Seq<NamedField>, from: int)
    requires
        0 <= from,
        forall|i: int| 0 <= i < fields.len() ==> ignore.contains((#[trigger] fields[i]).name@),
    ensures
        args_from(marker, ignore, fields, from) == Seq::<ArgView>::empty(),
    decreases fields.len() - from,
{
    if from < fields.len() {
        assert(ignore.contains(fields[from].name@));
        lemma_none_kept(marker, ignore, fields, from + 1);
    }
}

/// A shape with named fields of which every one is ignored, and without a
/// `format` of its own, has nothing to render alone: it fails with the
/// complaint of the missing format at the identifier of the shape.
pub proof fn lemma_no_kept_field(scope: Scope, fields: Seq<NamedField>)
    requires
        plain_named(scope, fields),
        forall|i: int| 0 <= i < fields.len() ==> ignored(scope).contains((#[trigger] fields[i]).name@),
    ensures
        scope.named_fragment(fields) == Err::<FragmentView, Report>(
            seq![(scope.span, "Missing #[format(...)] for struct with multiple fields"@)],
        ),
{
    let ignore = ignored(scope);
    lemma_named_parts(scope.marker, ignore, fields, 0, Seq::empty(), Seq::empty());
    lemma_none_kept(scope.marker, ignore, fields, 0);
    assert(Seq::<ArgView>::empty() + args_from(scope.marker, ignore, fields, 0) =~= args_from(
        scope.marker,
        ignore,
        fields,
        0,
    ));
}

/// The pattern of the positional fields from index `from` on: each by the
/// name of its position, bound unless its index is ignored.
pub open spec fn slots_from(ignore: Seq<usize>, fields: Seq<UnnamedField>, from: int) -> Seq<BindingView>
    decreases fields.len() - from,
{
    if from < 0 || from >= fields.len() {
        Seq::empty()
    } else {
        seq![BindingView { name: position_name(from as usize), bound: !ignore.contains(from as usize) }]
            + slots_from(ignore, fields, from + 1)
    }
}

/// The rendered values of the kept positional fields from index `from` on.
pub open spec fn values_from(
    marker: Seq<char>,
    ignore: Seq<usize>,
    fields: Seq<UnnamedField>,
    from: int,
) -> Seq<ArgView>
    decreases fields.len() - from,
{
    if from < 0 || from >= fields.len() {
        Seq::empty()
    } else if ignore.contains(from as usize) {
        values_from(marker, ignore, fields, from + 1)
    } else {
        seq![
            ArgView {
                name: position_name(from as usize),
                format: value_of(table(resolve(marker, format_keys(), fields[from].attrs@)->Ok_0), "format"@),
                concat: false,
            },
        ] + values_from(marker, ignore, fields, from + 1)
    }
}

/// Where the annotations of every positional field resolve, the walk over
/// the fields yields every position in the pattern and every kept position
/// among the arguments, in order.
pub proof fn lemma_unnamed_parts(
    marker: Seq<char>,
    ignore: Seq<usize>,
    fields: Seq<UnnamedField>,
    from: int,
    pattern: Seq<BindingView>,
    args: Seq<ArgView>,
)
    requires
        0 <= from,
        forall|i: int|
            from <= i < fields.len() ==> resolve(marker, format_keys(), (#[trigger] fields[i]).attrs@) is Ok,
    ensures
        unnamed_parts(marker, ignore, fields, from, pattern, args) == Ok::<
            (Seq<BindingView>, Seq<ArgView>),
            Report,
        >((pattern + slots_from(ignore, fields, from), args + values_from(marker, ignore, fields, from))),
    decreases fields.len() - from,
{
    if from >= fields.len() {
        assert(pattern + slots_from(ignore, fields, from) =~= pattern);
        assert(args + values_from(marker, ignore, fields, from) =~= args);
    } else {
        assert(resolve(marker, format_keys(), fields[from].attrs@) is Ok);
        let kept = !ignore.contains(from as usize);
        let slot = BindingView { name: position_name(from as usize), bound: kept };
        let next_args = if kept {
            args.push(
                ArgView {
                    name: position_name(from as usize),
                    format: value_of(
                        table(resolve(marker, format_keys(), fields[from].attrs@)->Ok_0),
                        "format"@,
                    ),
                    concat: false,
                },
            )
        } else {
            args
        };
        lemma_unnamed_parts(marker, ignore, fields, from + 1, pattern.push(slot), next_args);
        assert(pattern.push(slot) + slots_from(ignore, fields, from + 1) =~= pattern + slots_from(
            ignore,
            fields,
            from,
        ));
        assert(next_args + values_from(marker, ignore, fields, from + 1) =~= args + values_from(
            marker,
            ignore,
            fields,
            from,
        ));
    }
}

/// A shape with positional fields generates whenever its scope resolves,
/// the entries of its `ignore` are indices and the annotations of every
/// field resolve, however many positions are kept: the template is its
/// `format`, or `{}` where it has none.
pub proof fn lemma_positional_never_lacks_format(scope: Scope, fields: Seq<UnnamedField>)
    requires
        scope.scope_entries(unnamed_keys()) is Ok,
        ignore_indices(
            ignore_list(value_of(table(scope.scope_entries(unnamed_keys())->Ok_0), "ignore"@)),
            0,
            Seq::empty(),
        ) is Ok,
        forall|i: int|
            0 <= i < fields.len() ==> resolve(scope.marker, format_keys(), (#[trigger] fields[i]).attrs@) is Ok,
    ensures
        ({
            let t = table(scope.scope_entries(unnamed_keys())->Ok_0);
            let ignore = ignore_indices(ignore_list(value_of(t, "ignore"@)), 0, Seq::empty())->Ok_0;
            scope.unnamed_fragment(fields) == Ok::<FragmentView, Report>(
                FragmentView::Positional {
                    prefix: scope.prefix,
                    midfix: scope.midfix,
                    pattern: slots_from(ignore, fields, 0),
                    format: value_or(t, "format"@, "{}"@),
                    args: values_from(scope.marker, ignore, fields, 0),
                },
            )
        }),
{
    let t = table(scope.scope_entries(unnamed_keys())->Ok_0);
    let ignore = ignore_indices(ignore_list(value_of(t, "ignore"@)), 0, Seq::empty())->Ok_0;
    lemma_unnamed_parts(scope.marker, ignore, fields, 0, Seq::empty(), Seq::empty());
    assert(Seq::<BindingView>::empty() + slots_from(ignore, fields, 0) =~= slots_from(ignore, fields, 0));
    assert(Seq::<ArgView>::empty() + values_from(scope.marker, ignore, fields, 0) =~= values_from(
        scope.marker,
        ignore,
        fields,
        0,
    ));
}

/// Whether an outcome is the one that generation owes for a shape.
pub open spec fn yields(r: Result<Fragment, Error>, owed: Result<FragmentView, Report>) -> bool {
    match owed {
        Ok(f) => r is Ok && r->Ok_0@ == f,
        Err(e) => r is Err && r->Err_0@ == e,
    }
}

/// Generation is a function of the shape and its annotations: two outcomes
/// for the same scope and fields are both fragments with the same content,
/// or both errors with the same messages at the same places.
pub proof fn lemma_generation_repeats(
    scope: Scope,
    fields: Fields,
    first: Result<Fragment, Error>,
    second: Result<Fragment, Error>,
)
    requires
        yields(first, scope.fragment(fields)),
        yields(second, scope.fragment(fields)),
    ensures
        first is Ok <==> second is Ok,
        first is Ok ==> first->Ok_0@ == second->Ok_0@,
        first is Err ==> first->Err_0@ == second->Err_0@,
{
}

} // verus!
