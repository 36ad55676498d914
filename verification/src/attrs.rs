//! The annotation store: scoped `key = "value"` annotations, resolved from
//! raw annotation lists into a table from key to value and place.

use vstd::prelude::*;
use crate::error::{Error, Span};
use crate::text::same;

verus! {

/// One entry of a raw annotation list.
#[derive(Clone, Debug, PartialEq, Eq)]
pub enum Meta {
    /// A bare key, such as `ignore`.
    Path { span: Span },
    /// A key with a list, such as `ignore(a, b)`.
    List { span: Span },
    /// A key with a literal, such as `format = "{}"`. `value` is the text of
    /// the literal where it is a string literal, and `None` where it is not.
    NameValue { path: String, path_span: Span, value: Option<String>, value_span: Span },
    /// A lone literal.
    Lit { span: Span },
}

/// What stands in the brackets of a raw annotation.
#[derive(Clone, Debug, PartialEq, Eq)]
pub enum Args {
    /// The entries, in the order they were written.
    Parsed(Vec<Meta>),
    /// The error that reading the brackets gave.
    Malformed(Error),
}

/// One raw annotation: the marker it was written under, and what stands in
/// its brackets.
#[derive(Clone, Debug, PartialEq, Eq)]
pub struct Attribute {
    pub name: String,
    pub args: Args,
}

/// The entries of a table in the order they were written: key, place of the
/// value, value.
pub type Entries = Seq<(Seq<char>, Span, Seq<char>)>;

/// The messages of an error, each with its place.
pub type Report = Seq<(Span, Seq<char>)>;

/// The table that a run of entries stands for: a later entry of a key
/// replaces an earlier one.
pub open spec fn table(entries: Entries) -> Map<Seq<char>, (Span, Seq<char>)>
    decreases entries.len(),
{
    if entries.len() == 0 {
        Map::empty()
    } else {
        table(entries.drop_last()).insert(
            entries.last().0,
            (entries.last().1, entries.last().2),
        )
    }
}

/// Whether `path` is one of the recognized keys.
pub open spec fn recognized(keys: Seq<&str>, path: Seq<char>) -> bool {
    exists|i: int| 0 <= i < keys.len() && (#[trigger] keys[i])@ == path
}

/// The two-place report of a key written twice: first the place of the later
/// value, then that of the earlier.
pub open spec fn duplicate_report(key: Seq<char>, later: Span, earlier: Span) -> Report {
    seq![
        (later, "Duplicate attribute for "@ + key + " 1"@),
        (earlier, "Duplicate attribute for "@ + key + " 2"@),
    ]
}

/// What one entry does to the entries gathered so far in this resolution.
pub open spec fn take_entry(keys: Seq<&str>, acc: Entries, entry: Meta) -> Result<Entries, Report> {
    match entry {
        Meta::Path { span } => Err(seq![(span, "path not supported"@)]),
        Meta::List { span } => Err(seq![(span, "list not supported"@)]),
        Meta::Lit { span } => Err(seq![(span, "lit not supported"@)]),
        Meta::NameValue { path, path_span, value, value_span } => {
            if !recognized(keys, path@) {
                Err(seq![(path_span, "unknown attribute argument"@)])
            } else {
                match value {
                    None => Err(seq![(value_span, "expected string literal"@)]),
                    Some(text) => {
                        if table(acc).contains_key(path@) {
                            Err(duplicate_report(path@, value_span, table(acc)[path@].0))
                        } else {
                            Ok(acc.push((path@, value_span, text@)))
                        }
                    },
                }
            }
        },
    }
}

/// What the entries of one annotation, from index `from` on, do to the
/// entries gathered so far: the first failure ends the walk.
pub open spec fn take_entries(keys: Seq<&str>, acc: Entries, entries: Seq<Meta>, from: int) -> Result<
    Entries,
    Report,
>
    decreases entries.len() - from,
{
    if from < 0 || from >= entries.len() {
        Ok(acc)
    } else {
        match take_entry(keys, acc, entries[from]) {
            Err(e) => Err(e),
            Ok(next) => take_entries(keys, next, entries, from + 1),
        }
    }
}

/// What the annotations of a list, from index `from` on, do to the entries
/// gathered so far. Only annotations written under `name` count.
pub open spec fn take_attrs(
    name: Seq<char>,
    keys: Seq<&str>,
    acc: Entries,
    attrs: Seq<Attribute>,
    from: int,
) -> Result<Entries, Report>
    decreases attrs.len() - from,
{
    if from < 0 || from >= attrs.len() {
        Ok(acc)
    } else if attrs[from].name@ != name {
        take_attrs(name, keys, acc, attrs, from + 1)
    } else {
        match attrs[from].args {
            Args::Malformed(e) => Err(e@),
            Args::Parsed(entries) => match take_entries(keys, acc, entries@, 0) {
                Err(e) => Err(e),
                Ok(next) => take_attrs(name, keys, next, attrs, from + 1),
            },
        }
    }
}

/// The entries that a raw annotation list resolves to in a fresh scope, or
/// the report of its first failure.
pub open spec fn resolve(name: Seq<char>, keys: Seq<&str>, attrs: Seq<Attribute>) -> Result<
    Entries,
    Report,
> {
    take_attrs(name, keys, Seq::empty(), attrs, 0)
}

/// One resolved annotation.
#[derive(Clone, Debug)]
struct Entry<'a> {
    key: &'a str,
    span: Span,
    value: String,
}

impl<'a> View for Entry<'a> {
    type V = (Seq<char>, Span, Seq<char>);

    closed spec fn view(&self) -> (Seq<char>, Span, Seq<char>) {
        (self.key@, self.span, self.value@)
    }
}

/// The annotations visible in one scope.
#[derive(Clone, Debug)]
pub struct Attrs<'a> {
    span: Span,
    name: &'a str,
    keys: &'a [&'a str],
    m: Vec<Entry<'a>>,
}

impl<'a> View for Attrs<'a> {
    type V = Map<Seq<char>, (Span, Seq<char>)>;

    /// The table from key to the place and text of its value.
    open spec fn view(&self) -> Map<Seq<char>, (Span, Seq<char>)> {
        table(self.entries())
    }
}

impl<'a> Attrs<'a> {
    /// The entries in the order they came in.
    pub closed spec fn entries(&self) -> Entries {
        self.m@.map_values(|e: Entry<'a>| e@)
    }

    /// The place of the scope itself.
    pub closed spec fn scope(&self) -> Span {
        self.span
    }

    /// The marker under which annotations count.
    pub closed spec fn marker(&self) -> Seq<char> {
        self.name@
    }

    /// The keys recognized in this scope.
    pub closed spec fn keys(&self) -> Seq<&'a str> {
        self.keys@
    }

    /// Resolves a raw annotation list in a fresh scope at `span`.
    pub fn new_with(span: Span, attrs: &[Attribute], name: &'a str, keys: &'a [&'a str]) -> (r: Result<
        Attrs<'a>,
        Error,
    >)
        ensures
            match resolve(name@, keys@, attrs@) {
                Ok(es) => r is Ok && r->Ok_0.entries() == es && r->Ok_0.scope() == span
                    && r->Ok_0.marker() == name@ && r->Ok_0.keys() == keys@,
                Err(e) => r is Err && r->Err_0@ == e,
            },
    {
        let base = Attrs { span, name, keys, m: Vec::new() };
        base.to_new(attrs)
    }

    /// Resolves a raw annotation list and lays its entries over those of
    /// `self`: a key of the list replaces the same key of `self`.
    pub fn to_merged(&self, attrs: &[Attribute]) -> (r: Result<Attrs<'a>, Error>)
        ensures
            match resolve(self.marker(), self.keys(), attrs@) {
                Ok(es) => r is Ok && r->Ok_0.entries() == self.entries() + es
                    && r->Ok_0@ == self@.union_prefer_right(table(es))
                    && r->Ok_0.scope() == self.scope() && r->Ok_0.marker() == self.marker()
                    && r->Ok_0.keys() == self.keys(),
                Err(e) => r is Err && r->Err_0@ == e,
            },
    {
        match self.to_new(attrs) {
            Err(e) => Err(e),
            Ok(fresh) => {
                let mut ret = Attrs { span: self.span, name: self.name, keys: self.keys, m: Vec::new() };
                ret.extend(self);
                ret.extend(&fresh);
                proof {
                    assert(Seq::<(Seq<char>, Span, Seq<char>)>::empty() + self.entries()
                        =~= self.entries());
                    lemma_table_concat(self.entries(), fresh.entries());
                }
                Ok(ret)
            },
        }
    }

    /// Resolves a raw annotation list in a fresh scope with the place, marker
    /// and keys of `self`.
    pub fn to_new(&self, attrs: &[Attribute]) -> (r: Result<Attrs<'a>, Error>)
        ensures
            match resolve(self.marker(), self.keys(), attrs@) {
                Ok(es) => r is Ok && r->Ok_0.entries() == es && r->Ok_0.scope() == self.scope()
                    && r->Ok_0.marker() == self.marker() && r->Ok_0.keys() == self.keys(),
                Err(e) => r is Err && r->Err_0@ == e,
            },
    {
        self.to_new_with(self.span, attrs, self.keys)
    }

    /// Resolves a raw annotation list in a fresh scope at `span` with its own
    /// recognized keys and the marker of `self`.
    pub fn to_new_with(&self, span: Span, attrs: &[Attribute], keys: &'a [&'a str]) -> (r: Result<
        Attrs<'a>,
        Error,
    >)
        ensures
            match resolve(self.marker(), keys@, attrs@) {
                Ok(es) => r is Ok && r->Ok_0.entries() == es && r->Ok_0.scope() == span
                    && r->Ok_0.marker() == self.marker() && r->Ok_0.keys() == keys@,
                Err(e) => r is Err && r->Err_0@ == e,
            },
    {
        let mut ret = Attrs { span, name: self.name, keys, m: Vec::new() };
        assert(ret.entries() =~= Seq::empty());
        match ret.add(attrs) {
            Err(e) => Err(e),
            Ok(()) => Ok(ret),
        }
    }

    /// Appends copies of the entries of `other`.
    fn extend(&mut self, other: &Attrs<'a>)
        ensures
            final(self).entries() == old(self).entries() + other.entries(),
            final(self).span == old(self).span,
            final(self).name == old(self).name,
            final(self).keys == old(self).keys,
    {
        let mut i: usize = 0;
        while i < other.m.len()
            invariant
                i <= other.m.len(),
                self.entries() == old(self).entries() + other.entries().take(i as int),
                self.span == old(self).span,
                self.name == old(self).name,
                self.keys == old(self).keys,
            decreases other.m.len() - i,
        {
            let e = &other.m[i];
            let ghost before = self.entries();
            self.m.push(Entry { key: e.key, span: e.span, value: e.value.clone() });
            assert(self.entries() =~= before.push(e@));
            assert(other.entries().take(i + 1) =~= other.entries().take(i as int).push(
                other.entries()[i as int],
            ));
            i += 1;
        }
        assert(other.entries().take(other.entries().len() as int) =~= other.entries());
    }

    /// The recognized key that equals `path`, if there is one.
    fn find_key(&self, path: &str) -> (r: Option<&'a str>)
        ensures
            match r {
                Some(k) => k@ == path@ && recognized(self.keys@, path@),
                None => !recognized(self.keys@, path@),
            },
    {
        let mut i: usize = 0;
        while i < self.keys.len()
            invariant
                i <= self.keys.len(),
                forall|j: int| 0 <= j < i ==> (#[trigger] self.keys@[j])@ != path@,
            decreases self.keys.len() - i,
        {
            let k: &'a str = self.keys[i];
            if same(k, path) {
                return Some(k);
            }
            i += 1;
        }
        None
    }

    /// The index of the entry that the table holds for `name`, if any.
    fn position(&self, name: &str) -> (r: Option<usize>)
        ensures
            match r {
                Some(i) => i < self.m.len() && self@.contains_key(name@) && self@[name@] == (
                    self.m[i as int].span,
                    self.m[i as int].value@,
                ),
                None => !self@.contains_key(name@),
            },
    {
        let mut found: Option<usize> = None;
        let mut i: usize = 0;
        while i < self.m.len()
            invariant
                i <= self.m.len(),
                match found {
                    Some(j) => j < i && table(self.entries().take(i as int)).contains_key(name@)
                        && table(self.entries().take(i as int))[name@] == (
                        self.m[j as int].span,
                        self.m[j as int].value@,
                    ),
                    None => !table(self.entries().take(i as int)).contains_key(name@),
                },
            decreases self.m.len() - i,
        {
            proof {
                let next = self.entries().take(i + 1);
                assert(next.drop_last() =~= self.entries().take(i as int));
                assert(next.last() == self.m[i as int]@);
            }
            if same(self.m[i].key, name) {
                found = Some(i);
            }
            i += 1;
        }
        assert(self.entries().take(self.m.len() as int) =~= self.entries());
        found
    }

    /// Takes in the entries of every annotation of `attrs` written under the
    /// marker, up to the first failure.
    fn add(&mut self, attrs: &[Attribute]) -> (r: Result<(), Error>)
        ensures
            final(self).span == old(self).span,
            final(self).name == old(self).name,
            final(self).keys == old(self).keys,
            match take_attrs(old(self).name@, old(self).keys@, old(self).entries(), attrs@, 0) {
                Ok(es) => r is Ok && final(self).entries() == es,
                Err(e) => r is Err && r->Err_0@ == e,
            },
    {
        let ghost whole = take_attrs(self.name@, self.keys@, self.entries(), attrs@, 0);
        let mut i: usize = 0;
        while i < attrs.len()
            invariant
                i <= attrs.len(),
                self.span == old(self).span,
                self.name == old(self).name,
                self.keys == old(self).keys,
                take_attrs(self.name@, self.keys@, self.entries(), attrs@, i as int) == whole,
                whole == take_attrs(old(self).name@, old(self).keys@, old(self).entries(), attrs@, 0),
            decreases attrs.len() - i,
        {
            let attr = &attrs[i];
            if same(attr.name.as_str(), self.name) {
                match &attr.args {
                    Args::Malformed(e) => {
                        return Err(e.duplicate());
                    },
                    Args::Parsed(entries) => {
                        match self.add_entries(entries.as_slice()) {
                            Err(e) => {
                                return Err(e);
                            },
                            Ok(()) => {},
                        }
                    },
                }
            }
            i += 1;
        }
        Ok(())
    }

    /// Takes in the entries of one annotation, up to the first failure.
    fn add_entries(&mut self, entries: &[Meta]) -> (r: Result<(), Error>)
        ensures
            final(self).span == old(self).span,
            final(self).name == old(self).name,
            final(self).keys == old(self).keys,
            match take_entries(old(self).keys@, old(self).entries(), entries@, 0) {
                Ok(es) => r is Ok && final(self).entries() == es,
                Err(e) => r is Err && r->Err_0@ == e,
            },
    {
        let ghost whole = take_entries(self.keys@, self.entries(), entries@, 0);
        let mut j: usize = 0;
        while j < entries.len()
            invariant
                j <= entries.len(),
                self.span == old(self).span,
                self.name == old(self).name,
                self.keys == old(self).keys,
                take_entries(self.keys@, self.entries(), entries@, j as int) == whole,
                whole == take_entries(old(self).keys@, old(self).entries(), entries@, 0),
            decreases entries.len() - j,
        {
            match self.add_entry(&entries[j]) {
                Err(e) => {
                    return Err(e);
                },
                Ok(()) => {},
            }
            j += 1;
        }
        Ok(())
    }

    /// Takes in one entry, or says why it cannot be taken.
    fn add_entry(&mut self, entry: &Meta) -> (r: Result<(), Error>)
        ensures
            final(self).span == old(self).span,
            final(self).name == old(self).name,
            final(self).keys == old(self).keys,
            match take_entry(old(self).keys@, old(self).entries(), *entry) {
                Ok(es) => r is Ok && final(self).entries() == es,
                Err(e) => r is Err && r->Err_0@ == e && final(self).entries() == old(self).entries(),
            },
    {
        match entry {
            Meta::Path { span } => Err(Error::at(*span, "path not supported")),
            Meta::List { span } => Err(Error::at(*span, "list not supported")),
            Meta::Lit { span } => Err(Error::at(*span, "lit not supported")),
            Meta::NameValue { path, path_span, value, value_span } => {
                match self.find_key(path.as_str()) {
                    None => Err(Error::at(*path_span, "unknown attribute argument")),
                    Some(key) => match value {
                        None => Err(Error::at(*value_span, "expected string literal")),
                        Some(text) => match self.position(key) {
                            Some(at) => {
                                let mut first = String::from_str("Duplicate attribute for ");
                                first.append(key);
                                first.append(" 1");
                                let mut second = String::from_str("Duplicate attribute for ");
                                second.append(key);
                                second.append(" 2");
                                let mut a = Error::new(*value_span, first);
                                let b = Error::new(self.m[at].span, second);
                                a.combine(b);
                                assert(a@ =~= duplicate_report(path@, *value_span, self@[path@].0));
                                Err(a)
                            },
                            None => {
                                let ghost before = self.entries();
                                let new_entry = Entry { key, span: *value_span, value: text.clone() };
                                self.m.push(new_entry);
                                assert(self.entries() =~= before.push((path@, *value_span, text@)));
                                Ok(())
                            },
                        },
                    },
                }
            },
        }
    }

    /// The value of `name`, if the table holds one.
    pub fn opt<'b>(&'b self, name: &str) -> (r: Option<&'b str>)
        ensures
            match r {
                Some(v) => self@.contains_key(name@) && v@ == self@[name@].1,
                None => !self@.contains_key(name@),
            },
    {
        match self.position(name) {
            Some(i) => Some(self.m[i].value.as_str()),
            None => None,
        }
    }

    /// The place of the value of `name`, or the place of the scope where the
    /// table holds none.
    pub fn span(&self, name: &str) -> (r: Span)
        ensures
            r == if self@.contains_key(name@) {
                self@[name@].0
            } else {
                self.scope()
            },
    {
        match self.position(name) {
            Some(i) => self.m[i].span,
            None => self.span,
        }
    }

    /// The value of `name`, or `default` where the table holds none.
    pub fn get<'b>(&'b self, name: &str, default: &'b str) -> (r: &'b str)
        ensures
            r@ == if self@.contains_key(name@) {
                self@[name@].1
            } else {
                default@
            },
    {
        match self.opt(name) {
            Some(v) => v,
            None => default,
        }
    }
}

/// Laying one run of entries after another gives the table of the first,
/// overridden by the table of the second.
pub proof fn lemma_table_concat(a: Entries, b: Entries)
    ensures
        table(a + b) == table(a).union_prefer_right(table(b)),
    decreases b.len(),
{
    if b.len() == 0 {
        assert(a + b =~= a);
        assert(table(a).union_prefer_right(table(b)) =~= table(a));
    } else {
        lemma_table_concat(a, b.drop_last());
        assert((a + b).drop_last() =~= a + b.drop_last());
        assert((a + b).last() == b.last());
        assert(table(a + b) =~= table(a).union_prefer_right(table(b)));
    }
}

} // verus!
